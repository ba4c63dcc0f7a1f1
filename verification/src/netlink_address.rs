//! Address requests of the network manager and the decoding of the kernel's
//! address messages.  Instants are seconds on the monotonic clock.

use vstd::prelude::*;

use crate::netlink::{ValidityPeriod, VALIDITY_PERIOD_INFINITE};

verus! {

/// An IPv4 or IPv6 address.
#[derive(Debug, Clone, Copy, PartialEq, Eq)]
pub enum IpAddress {
    V4([u8; 4]),
    V6([u8; 16]),
}

/// An address assigned to an interface, with its prefix length.
#[derive(Debug)]
pub struct AddressSpec {
    pub iface_index: u32,
    pub address: IpAddress,
    pub prefix_len: u8,
}

/// Asks to add an address.
#[derive(Debug)]
pub struct AddAddressRequest {
    pub address: AddressSpec,
    pub preferred_until: Option<u64>,
    pub valid_until: Option<u64>,
}

/// The address was added.
#[derive(Debug)]
pub struct AddAddressResponse {}

/// Asks for every address of every interface.
#[derive(Debug)]
pub struct ListAddressesRequest {}

impl Default for ListAddressesRequest {
    /// The request for every address.
    fn default() -> (r: ListAddressesRequest) {
        ListAddressesRequest {  }
    }
}

/// The addresses the kernel reported.
#[derive(Debug)]
pub struct ListAddressesResponse {
    pub addresses: Vec<AddressInfo>,
}

/// Asks to delete an address.
#[derive(Debug)]
pub struct DelAddressRequest {
    pub address: AddressSpec,
}

/// The address was deleted.
#[derive(Debug)]
pub struct DelAddressResponse {}

/// An address of an interface, with the instants its lifetimes end (none for forever).
#[derive(Debug)]
pub struct AddressInfo {
    pub interface_index: u32,
    pub address: IpAddress,
    pub preferred_until: Option<u64>,
    pub valid_until: Option<u64>,
}

/// AF_INET.
pub const AF_INET: u8 = 2;
/// AF_INET6.
pub const AF_INET6: u8 = 10;
/// RT_SCOPE_UNIVERSE.
pub const RT_SCOPE_UNIVERSE: u8 = 0;

/// The address message sent to add or delete an address.
#[derive(Debug)]
pub struct AddressMessageModel {
    pub family: u8,
    pub prefix_len: u8,
    pub flags: u8,
    pub scope: u8,
    pub index: u32,
    pub local: Vec<u8>,
    pub address: Vec<u8>,
}

/// The bytes of an address.
pub open spec fn ip_octets(a: IpAddress) -> Seq<u8> {
    match a {
        IpAddress::V4(b) => b@,
        IpAddress::V6(b) => b@,
    }
}

/// The message describing `aspec`: its family, prefix, scope and interface, and the
/// address both as local and as peer address.
pub fn address_spec_to_address_message(aspec: &AddressSpec) -> (r: AddressMessageModel)
    ensures
        r.family == (if aspec.address is V4 {
            AF_INET
        } else {
            AF_INET6
        }),
        r.prefix_len == aspec.prefix_len,
        r.flags == 0,
        r.scope == RT_SCOPE_UNIVERSE,
        r.index == aspec.iface_index,
        r.local@ == ip_octets(aspec.address),
        r.address@ == ip_octets(aspec.address),
{
    let (family, ip_buf) = match &aspec.address {
        IpAddress::V4(b) => (AF_INET, vstd::slice::slice_to_vec(b.as_slice())),
        IpAddress::V6(b) => (AF_INET6, vstd::slice::slice_to_vec(b.as_slice())),
    };
    AddressMessageModel {
        family,
        prefix_len: aspec.prefix_len,
        flags: 0,
        scope: RT_SCOPE_UNIVERSE,
        index: aspec.iface_index,
        local: ip_buf.clone(),
        address: ip_buf,
    }
}

/// The message that adds the address of `lreq`; requests with lifetimes are not supported.
pub fn add_address_message(lreq: &AddAddressRequest) -> (r: AddressMessageModel)
    requires
        lreq.preferred_until is None,
        lreq.valid_until is None,
    ensures
        r.index == lreq.address.iface_index,
        r.prefix_len == lreq.address.prefix_len,
        r.address@ == ip_octets(lreq.address.address),
{
    address_spec_to_address_message(&lreq.address)
}

/// The kernel's `ifa_cacheinfo` record of an address.
#[derive(Debug)]
pub struct IfaCacheInfo {
    /// Preferred lifetime, seconds.
    pub ifa_prefered: ValidityPeriod,
    /// Valid lifetime, seconds.
    pub ifa_valid: ValidityPeriod,
    /// Created timestamp, hundredths of seconds.
    pub cstamp: u32,
    /// Updated timestamp, hundredths of seconds.
    pub tstamp: u32,
}

/// The size of the record that the address listing insists on.
pub const IFA_CACHE_INFO_BUFFER_LENGTH: usize = 12;

/// The little-endian (host order on the supported targets) 32-bit value at `s[i..i + 4]`.
pub open spec fn le32(s: Seq<u8>, i: int) -> u32 {
    (s[i] as int + s[i + 1] as int * 0x100 + s[i + 2] as int * 0x1_0000 + s[i + 3] as int
        * 0x100_0000) as u32
}

/// The little-endian 32-bit value at `data[at..at + 4]`.
fn read_le32(data: &[u8], at: usize) -> (r: u32)
    requires
        at + 4 <= data@.len(),
    ensures
        r == le32(data@, at as int),
{
    (data[at] as u32) + (data[at + 1] as u32) * 0x100 + (data[at + 2] as u32) * 0x1_0000 + (data[at
        + 3] as u32) * 0x100_0000
}

impl IfaCacheInfo {
    /// A record with every field zero.
    pub fn zero() -> (r: IfaCacheInfo)
        ensures
            r.ifa_prefered.0 == 0 && r.ifa_valid.0 == 0 && r.cstamp == 0 && r.tstamp == 0,
    {
        IfaCacheInfo {
            ifa_prefered: ValidityPeriod(0),
            ifa_valid: ValidityPeriod(0),
            cstamp: 0,
            tstamp: 0,
        }
    }

    /// The record held by the first sixteen bytes of `data`.
    pub fn copy_from_slice(data: &[u8]) -> (r: IfaCacheInfo)
        requires
            data@.len() >= 16,
        ensures
            r.ifa_prefered.0 == le32(data@, 0),
            r.ifa_valid.0 == le32(data@, 4),
            r.cstamp == le32(data@, 8),
            r.tstamp == le32(data@, 12),
    {
        IfaCacheInfo {
            ifa_prefered: ValidityPeriod(read_le32(data, 0)),
            ifa_valid: ValidityPeriod(read_le32(data, 4)),
            cstamp: read_le32(data, 8),
            tstamp: read_le32(data, 12),
        }
    }

    /// Sets the end instants of `info`'s lifetimes from `now`; forever leaves none.
    pub fn add_cache_information(&self, info: &mut AddressInfo, now: u64)
        requires
            now + 0xFFFF_FFFFu64 <= u64::MAX,
        ensures
            final(info).interface_index == old(info).interface_index,
            final(info).address == old(info).address,
            final(info).preferred_until == (if self.ifa_prefered.0 == VALIDITY_PERIOD_INFINITE {
                None
            } else {
                Some((now + self.ifa_prefered.0) as u64)
            }),
            final(info).valid_until == (if self.ifa_valid.0 == VALIDITY_PERIOD_INFINITE {
                None
            } else {
                Some((now + self.ifa_valid.0) as u64)
            }),
    {
        info.preferred_until = None;
        info.valid_until = None;
        if !self.ifa_prefered.is_infinite() {
            info.preferred_until = Some(now + self.ifa_prefered.0 as u64);
        }
        if !self.ifa_valid.is_infinite() {
            info.valid_until = Some(now + self.ifa_valid.0 as u64);
        }
    }
}

/// An attribute of an address message, as far as the manager reads it.
pub enum AddressAttribute {
    Address(Vec<u8>),
    CacheInfo(Vec<u8>),
    Other,
}

/// The address bytes and cache-info bytes that `attrs[..k]` leave: the last of each
/// wins, and cache info shorter than the required length is ignored.
pub open spec fn address_summary(attrs: Seq<AddressAttribute>, k: int) -> (Seq<u8>, Option<Seq<u8>>)
    decreases k,
{
    if k <= 0 {
        (Seq::empty(), None)
    } else {
        let prev = address_summary(attrs, k - 1);
        match attrs[k - 1] {
            AddressAttribute::Address(a) => (a@, prev.1),
            AddressAttribute::CacheInfo(c) => if IFA_CACHE_INFO_BUFFER_LENGTH <= c@.len() {
                (prev.0, Some(c@))
            } else {
                prev
            },
            AddressAttribute::Other => prev,
        }
    }
}

/// The address with the given bytes, where they are four or sixteen.
pub open spec fn ip_of_bytes(b: Seq<u8>) -> Option<IpAddress> {
    if b.len() == 4 {
        Some(IpAddress::V4(choose|a: [u8; 4]| a@ == b))
    } else if b.len() == 16 {
        Some(IpAddress::V6(choose|a: [u8; 16]| a@ == b))
    } else {
        None
    }
}

/// The address whose bytes are `b`, where they are four or sixteen.
fn ip_from_bytes(b: &Vec<u8>) -> (r: Option<IpAddress>)
    ensures
        r is Some <==> (b@.len() == 4 || b@.len() == 16),
        r matches Some(a) ==> ip_octets(a) == b@,
{
    if b.len() == 4 {
        let a: [u8; 4] = [b[0], b[1], b[2], b[3]];
        assert(a@ =~= b@);
        Some(IpAddress::V4(a))
    } else if b.len() == 16 {
        let a: [u8; 16] = [
            b[0],
            b[1],
            b[2],
            b[3],
            b[4],
            b[5],
            b[6],
            b[7],
            b[8],
            b[9],
            b[10],
            b[11],
            b[12],
            b[13],
            b[14],
            b[15],
        ];
        assert(a@ =~= b@);
        Some(IpAddress::V6(a))
    } else {
        None
    }
}

/// The address record that a new-address message of interface `index` describes,
/// observed at `now`; `None` where its address is neither IPv4 nor IPv6.
pub fn address_info_from_message(index: u32, attrs: &Vec<AddressAttribute>, now: u64) -> (r:
    Option<AddressInfo>)
    requires
        now + 0xFFFF_FFFFu64 <= u64::MAX,
        forall|j: int|
            0 <= j < attrs@.len() ==> (#[trigger] attrs@[j] matches AddressAttribute::CacheInfo(c) ==> (
            c@.len() >= IFA_CACHE_INFO_BUFFER_LENGTH ==> c@.len() >= 16)),
    ensures
        ({
            let (a, c) = address_summary(attrs@, attrs@.len() as int);
            &&& r is Some <==> (a.len() == 4 || a.len() == 16)
            &&& r matches Some(info) ==> {
                &&& info.interface_index == index
                &&& ip_octets(info.address) == a
                &&& c is None ==> info.preferred_until is None && info.valid_until is None
                &&& c matches Some(cb) ==> {
                    &&& info.preferred_until == (if le32(cb, 0) == VALIDITY_PERIOD_INFINITE {
                        None
                    } else {
                        Some((now + le32(cb, 0)) as u64)
                    })
                    &&& info.valid_until == (if le32(cb, 4) == VALIDITY_PERIOD_INFINITE {
                        None
                    } else {
                        Some((now + le32(cb, 4)) as u64)
                    })
                }
            }
        }),
{
    let mut address: Vec<u8> = Vec::new();
    let mut cacheinfo: Option<IfaCacheInfo> = None;
    let ghost mut cache_bytes: Option<Seq<u8>> = None;
    let mut k: usize = 0;
    while k < attrs.len()
        invariant
            0 <= k <= attrs@.len(),
            address@ == address_summary(attrs@, k as int).0,
            cache_bytes == address_summary(attrs@, k as int).1,
            cache_bytes is None <==> cacheinfo is None,
            forall|j: int|
                0 <= j < attrs@.len() ==> (#[trigger] attrs@[j] matches AddressAttribute::CacheInfo(c)
                    ==> (c@.len() >= IFA_CACHE_INFO_BUFFER_LENGTH ==> c@.len() >= 16)),
            cacheinfo matches Some(ci) ==> (cache_bytes matches Some(cb) && ci.ifa_prefered.0
                == le32(cb, 0) && ci.ifa_valid.0 == le32(cb, 4)),
        decreases attrs@.len() - k,
    {
        match &attrs[k] {
            AddressAttribute::Address(a) => {
                address = a.clone();
            },
            AddressAttribute::CacheInfo(c) => {
                if IFA_CACHE_INFO_BUFFER_LENGTH <= c.len() {
                    proof {
                        cache_bytes = Some(c@);
                    }
                    cacheinfo = Some(IfaCacheInfo::copy_from_slice(c.as_slice()));
                }
            },
            AddressAttribute::Other => {},
        }
        k = k + 1;
    }
    let addr = match ip_from_bytes(&address) {
        Some(a) => a,
        None => {
            return None;
        },
    };
    let mut info = AddressInfo {
        interface_index: index,
        address: addr,
        preferred_until: None,
        valid_until: None,
    };
    if let Some(ci) = cacheinfo {
        ci.add_cache_information(&mut info, now);
    }
    Some(info)
}

} // verus!
