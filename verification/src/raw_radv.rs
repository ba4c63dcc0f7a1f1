//! Zero-allocation view of router advertisements: the packet bytes stay as
//! they are and options are decoded one at a time by an iterator.

use vstd::prelude::*;
use vstd::utf8::{decode_utf8, valid_utf8};

use crate::be::{be16, be32, read_be_u16, read_be_u32};

verus! {

/// Length of the fixed part of a router advertisement.
pub const ROUTER_ADVERTISED_STATIC_LEN: usize = 16;
/// Flag: addresses are handed out by DHCPv6.
pub const MANAGED_ADDRESS_CONFIGURATION: u8 = 0x80;
/// Flag: other configuration is handed out by DHCPv6.
pub const OTHER_CONFIGURATION: u8 = 0x40;

/// The advertisement is too short.
#[derive(Debug)]
pub struct Error {}

/// `str::from_utf8` (std): the characters of `bytes` where they are valid UTF-8.
#[verifier::external_body]
fn utf8_string(bytes: &[u8]) -> (r: Option<String>)
    ensures
        r is Some <==> valid_utf8(bytes@),
        r matches Some(s) ==> s@ == decode_utf8(bytes@),
{
    match std::str::from_utf8(bytes) {
        Ok(s) => Some(s.to_string()),
        Err(_) => None,
    }
}

/// A router advertisement held as its raw bytes.
pub struct RouterAdvertisement {
    data: Vec<u8>,
}

impl RouterAdvertisement {
    /// The bytes of the advertisement.
    pub closed spec fn bytes(&self) -> Seq<u8> {
        self.data@
    }

    /// Takes `data` as an advertisement; it must hold at least the fixed header.
    pub fn from_bytes(data: &[u8]) -> (r: Result<RouterAdvertisement, Error>)
        ensures
            r is Ok <==> data@.len() >= ROUTER_ADVERTISED_STATIC_LEN,
            r matches Ok(ra) ==> ra.bytes() == data@,
    {
        if data.len() < ROUTER_ADVERTISED_STATIC_LEN {
            return Err(Error {});
        }
        Ok(RouterAdvertisement { data: vstd::slice::slice_to_vec(data) })
    }

    /// Whether the managed-address flag is set.
    pub fn is_managed(&self) -> (r: bool)
        requires
            self.bytes().len() >= 16,
        ensures
            r == (self.bytes()[5] & MANAGED_ADDRESS_CONFIGURATION > 0),
    {
        self.data[5] & MANAGED_ADDRESS_CONFIGURATION > 0
    }

    /// Whether the other-configuration flag is set.
    pub fn is_other_managed(&self) -> (r: bool)
        requires
            self.bytes().len() >= 16,
        ensures
            r == (self.bytes()[5] & OTHER_CONFIGURATION > 0),
    {
        self.data[5] & OTHER_CONFIGURATION > 0
    }

    /// An iterator over the options that follow the fixed header.
    pub fn options(&self) -> (r: OptIter)
        requires
            self.bytes().len() >= 16,
        ensures
            r.remaining() == self.bytes().skip(16),
    {
        let n = self.data.len();
        let r = OptIter::new(vstd::slice::slice_to_vec(&self.data.as_slice()[16..n]));
        assert(self.data@.subrange(16, n as int) =~= self.data@.skip(16));
        r
    }
}

/// A 48-bit link-layer address.
#[derive(Clone, Copy, Debug)]
pub struct LinkLayerAddress(pub [u8; 6]);

impl LinkLayerAddress {
    /// The address held by the six bytes `data`.
    pub fn from_bytes(data: &[u8]) -> (r: Result<LinkLayerAddress, Error>)
        requires
            data@.len() == 6,
        ensures
            r matches Ok(a) && a.0@ == data@,
    {
        let a = LinkLayerAddress([data[0], data[1], data[2], data[3], data[4], data[5]]);
        assert(a.0@ =~= data@);
        Ok(a)
    }
}

/// The MTU option: two reserved bytes and the MTU, both as carried big-endian.
#[derive(Clone, Copy, Debug)]
pub struct Mtu {
    pub reserved1: u16,
    pub mtu: u32,
}

impl Mtu {
    /// The option held by the six bytes `data`.
    pub fn from_bytes(data: &[u8]) -> (r: Result<Mtu, Error>)
        requires
            data@.len() == 6,
        ensures
            r matches Ok(m) && m.reserved1 == be16(data@, 0) && m.mtu == be32(data@, 2),
    {
        let reserved1 = read_be_u16(&data[0..2]);
        let mtu = read_be_u32(&data[2..6]);
        assert(be16(data@.subrange(0, 2), 0) == be16(data@, 0));
        assert(be32(data@.subrange(2, 6), 0) == be32(data@, 2));
        Ok(Mtu { reserved1, mtu })
    }

    /// The link MTU.
    pub fn value(&self) -> (r: u32)
        ensures
            r == self.mtu,
    {
        self.mtu
    }
}

/// An IPv6 address as eight big-endian 16-bit segments.
#[derive(Clone, Copy, Debug)]
pub struct IPv6Address(pub [u16; 8]);

/// The prefix information option, integers as carried big-endian.
#[derive(Clone, Copy, Debug)]
pub struct PrefixInformation {
    pub prefix_length: u8,
    pub flags1: u8,
    pub valid_lifetime: u32,
    pub preferred_lifetime: u32,
    pub reserved2: u32,
    pub prefix: IPv6Address,
}

/// The eight segments of the address in `d[at..at + 16]`.
pub open spec fn segments_at(d: Seq<u8>, at: int) -> Seq<u16> {
    Seq::new(8, |k: int| be16(d, at + 2 * k))
}

impl PrefixInformation {
    /// The option held by the thirty bytes `data`.
    pub fn from_bytes(data: &[u8]) -> (r: Result<PrefixInformation, Error>)
        requires
            data@.len() == 30,
        ensures
            r matches Ok(p) && p.prefix_length == data@[0] && p.flags1 == data@[1]
                && p.valid_lifetime == be32(data@, 2) && p.preferred_lifetime == be32(data@, 6)
                && p.reserved2 == be32(data@, 10) && p.prefix.0@ == segments_at(data@, 14),
    {
        let mut segs: [u16; 8] = [0u16; 8];
        let mut k: usize = 0;
        while k < 8
            invariant
                data@.len() == 30,
                0 <= k <= 8,
                forall|j: int| 0 <= j < k ==> segs@[j] == be16(data@, 14 + 2 * j),
            decreases 8 - k,
        {
            let at: usize = 14 + 2 * k;
            let s = read_be_u16(&data[at..at + 2]);
            assert(be16(data@.subrange(at as int, at + 2), 0) == be16(data@, at as int));
            segs[k] = s;
            k = k + 1;
        }
        assert(segs@ =~= segments_at(data@, 14));
        let valid_lifetime = read_be_u32(&data[2..6]);
        let preferred_lifetime = read_be_u32(&data[6..10]);
        let reserved2 = read_be_u32(&data[10..14]);
        assert(be32(data@.subrange(2, 6), 0) == be32(data@, 2));
        assert(be32(data@.subrange(6, 10), 0) == be32(data@, 6));
        assert(be32(data@.subrange(10, 14), 0) == be32(data@, 10));
        Ok(
            PrefixInformation {
                prefix_length: data[0],
                flags1: data[1],
                valid_lifetime,
                preferred_lifetime,
                reserved2,
                prefix: IPv6Address(segs),
            },
        )
    }
}

/// One option, as the iterator yields it.
#[derive(Debug)]
pub enum RouterAdvertisementOption {
    SourceLinkLayerAddress(LinkLayerAddress),
    TargetLinkLayerAddress(LinkLayerAddress),
    Mtu(Mtu),
    PrefixInformation(PrefixInformation),
    DnsSearchList(String),
    Unknown(u8, Vec<u8>),
}

/// What the next call of the iterator does on the remaining bytes `r`.
pub enum NextStep {
    /// Nothing is left: `None`, consuming `n` bytes.
    End(int),
    /// The option is malformed or unsupported: the iterator panics.
    Panics,
    /// An option of type `t` whose data is `d`, consuming `n` bytes.
    Item(u8, Seq<u8>, int),
}

/// Option type codes of the options whose data must have an exact size.
pub open spec fn option_size_ok(t: u8, d: Seq<u8>) -> bool {
    if t == 1 || t == 2 {
        d.len() == 6
    } else if t == 3 {
        d.len() == 30
    } else if t == 4 {
        false
    } else if t == 5 {
        d.len() == 6
    } else if t == 31 {
        valid_utf8(d)
    } else {
        true
    }
}

/// The step of the iterator on the remaining bytes `r`.
pub open spec fn next_step(r: Seq<u8>) -> NextStep {
    if r.len() == 0 {
        NextStep::End(0)
    } else if r.len() == 1 {
        NextStep::End(1)
    } else if r[1] == 0 || r[1] * 8 - 2 > r.len() - 2 {
        NextStep::Panics
    } else {
        let d = r.subrange(2, 2 + r[1] * 8 - 2);
        if option_size_ok(r[0], d) {
            NextStep::Item(r[0], d, r[1] * 8)
        } else {
            NextStep::Panics
        }
    }
}

/// An iterator over the options of an advertisement.
#[derive(Debug)]
pub struct OptIter {
    parent: Vec<u8>,
    pos: usize,
}

impl OptIter {
    /// The bytes that the iterator has not consumed yet.
    pub closed spec fn remaining(&self) -> Seq<u8> {
        self.parent@.skip(self.pos as int)
    }

    /// Whether the iterator's position lies within its bytes.
    pub closed spec fn wf(&self) -> bool {
        self.pos <= self.parent@.len()
    }

    /// An iterator over the options in `parent`.
    pub fn new(parent: Vec<u8>) -> (r: OptIter)
        ensures
            r.wf(),
            r.remaining() == parent@,
    {
        let r = OptIter { parent, pos: 0 };
        assert(r.parent@.skip(0) =~= r.parent@);
        r
    }

    /// Decodes the next option.  A type-2 option comes out as a source
    /// link-layer address, as the type-1 option does.
    pub fn next(&mut self) -> (r: Option<RouterAdvertisementOption>)
        requires
            old(self).wf(),
            !(next_step(old(self).remaining()) is Panics),
        ensures
            final(self).wf(),
            match next_step(old(self).remaining()) {
                NextStep::End(n) => r is None && final(self).remaining() == old(self).remaining().skip(n),
                NextStep::Item(t, d, n) => final(self).remaining() == old(self).remaining().skip(n)
                    && match r {
                    Some(RouterAdvertisementOption::SourceLinkLayerAddress(a)) => (t == 1 || t == 2)
                        && a.0@ == d,
                    Some(RouterAdvertisementOption::PrefixInformation(p)) => t == 3
                        && p.prefix_length == d[0] && p.flags1 == d[1] && p.valid_lifetime == be32(d, 2)
                        && p.preferred_lifetime == be32(d, 6) && p.reserved2 == be32(d, 10)
                        && p.prefix.0@ == segments_at(d, 14),
                    Some(RouterAdvertisementOption::Mtu(m)) => t == 5 && m.reserved1 == be16(d, 0)
                        && m.mtu == be32(d, 2),
                    Some(RouterAdvertisementOption::DnsSearchList(s)) => t == 31 && s@ == decode_utf8(d),
                    Some(RouterAdvertisementOption::Unknown(u, v)) => u == t && v@ == d && t != 1 && t
                        != 2 && t != 3 && t != 4 && t != 5 && t != 31,
                    _ => false,
                },
                NextStep::Panics => false,
            },
    {
        let ghost rem = self.parent@.skip(self.pos as int);
        let n: usize = self.parent.len();
        if self.pos == n {
            return None;
        }
        let type_: u8 = self.parent[self.pos];
        if self.pos + 1 == n {
            self.pos = self.pos + 1;
            assert(self.parent@.skip(self.pos as int) =~= rem.skip(1));
            return None;
        }
        let length_byte: u8 = self.parent[self.pos + 1];
        let length: usize = (length_byte as usize) * 8 - 2;
        let start: usize = self.pos + 2;
        let end: usize = start + length;
        let slice = &self.parent.as_slice()[start..end];
        assert(slice@ =~= rem.subrange(2, 2 + length_byte * 8 - 2));
        self.pos = end;
        assert(self.parent@.skip(self.pos as int) =~= rem.skip(length_byte * 8));
        if type_ == 1 || type_ == 2 {
            match LinkLayerAddress::from_bytes(slice) {
                Ok(addr) => Some(RouterAdvertisementOption::SourceLinkLayerAddress(addr)),
                Err(_) => None,
            }
        } else if type_ == 3 {
            match PrefixInformation::from_bytes(slice) {
                Ok(p) => Some(RouterAdvertisementOption::PrefixInformation(p)),
                Err(_) => None,
            }
        } else if type_ == 5 {
            match Mtu::from_bytes(slice) {
                Ok(m) => Some(RouterAdvertisementOption::Mtu(m)),
                Err(_) => None,
            }
        } else if type_ == 31 {
            match utf8_string(slice) {
                Some(s) => Some(RouterAdvertisementOption::DnsSearchList(s)),
                None => None,
            }
        } else {
            Some(RouterAdvertisementOption::Unknown(type_, vstd::slice::slice_to_vec(slice)))
        }
    }
}

} // verus!
