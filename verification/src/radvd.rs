//! Parsing of ICMPv6 router advertisements (RFC 4861) into owned values.

use vstd::prelude::*;

use crate::be::{be16, be32, read_be_u16, read_be_u32};

verus! {

/// The advertisement is truncated or malformed.
#[derive(Debug)]
pub struct Error {}

impl Error {
    /// The error of an advertisement shorter than its header.
    fn truncated() -> (r: Error) {
        Error {}
    }
}

/// Option type of a source link-layer address.
pub const OPTION_TYPE_SOURCE_LINK_LAYER_ADDRESS: u8 = 1;
/// Option type of a target link-layer address.
pub const OPTION_TYPE_TARGET_LINK_LAYER_ADDRESS: u8 = 2;
/// Option type of prefix information.
pub const OPTION_TYPE_PREFIX_INFORMATION: u8 = 3;
/// Option type of a redirected header (not supported).
pub const OPTION_TYPE_REDIRECT_HEADER: u8 = 4;
/// Option type of the link MTU.
pub const OPTION_TYPE_MTU: u8 = 5;
/// Option type of a DNS search list.
pub const OPTION_DNS_SEARCH_LIST: u8 = 31;

/// A 48-bit link-layer (MAC) address.
#[derive(Clone, Copy, Debug)]
pub struct LinkLayerAddress(pub [u8; 6]);

impl LinkLayerAddress {
    /// The all-zero address.
    pub fn zero() -> (r: LinkLayerAddress)
        ensures
            r.0@ == seq![0u8, 0u8, 0u8, 0u8, 0u8, 0u8],
    {
        let r = LinkLayerAddress([0u8; 6]);
        assert(r.0@ =~= seq![0u8, 0u8, 0u8, 0u8, 0u8, 0u8]);
        r
    }
}

/// The link MTU option; `mtu` is the value carried big-endian on the wire.
#[derive(Clone, Copy, Debug)]
pub struct Mtu {
    pub mtu: u32,
}

/// The prefix information option.
#[derive(Clone, Copy, Debug)]
pub struct PrefixInformation {
    pub prefix_length: u8,
    pub flags1: u8,
    pub valid_lifetime: u32,
    pub preferred_lifetime: u32,
    pub reserved2: u32,
    pub prefix: [u8; 16],
}

/// One option of a router advertisement.
#[derive(Debug)]
pub enum RouterAdvertisementOption {
    SourceLinkLayerAddress(LinkLayerAddress),
    TargetLinkLayerAddress(LinkLayerAddress),
    Mtu(Mtu),
    PrefixInformation(PrefixInformation),
    DnsSearchList(Vec<u8>),
    Unknown(u8, Vec<u8>),
}

/// The value of an option, with its bytes as sequences.
pub enum OptionView {
    SourceLinkLayerAddress(Seq<u8>),
    TargetLinkLayerAddress(Seq<u8>),
    Mtu(u32),
    PrefixInformation(PrefixInformation),
    DnsSearchList(Seq<u8>),
    Unknown(u8, Seq<u8>),
}

impl View for RouterAdvertisementOption {
    type V = OptionView;

    /// The option with its bytes as sequences.
    open spec fn view(&self) -> OptionView {
        match self {
            RouterAdvertisementOption::SourceLinkLayerAddress(a) => OptionView::SourceLinkLayerAddress(
                a.0@,
            ),
            RouterAdvertisementOption::TargetLinkLayerAddress(a) => OptionView::TargetLinkLayerAddress(
                a.0@,
            ),
            RouterAdvertisementOption::Mtu(m) => OptionView::Mtu(m.mtu),
            RouterAdvertisementOption::PrefixInformation(p) => OptionView::PrefixInformation(*p),
            RouterAdvertisementOption::DnsSearchList(d) => OptionView::DnsSearchList(d@),
            RouterAdvertisementOption::Unknown(t, d) => OptionView::Unknown(*t, d@),
        }
    }
}

/// A router advertisement: the fixed 16-byte header and its options.
#[derive(Debug)]
pub struct RouterAdvertisement {
    pub type_: u8,
    pub code: u8,
    pub checksum: u16,
    pub cur_hop_limit: u8,
    pub flags1: u8,
    pub router_lifetime: u16,
    pub reachable_time: u32,
    pub retrans_timer: u32,
    pub options: Vec<RouterAdvertisementOption>,
}

/// The length in bytes of an option's data, from its length byte (units of 8 bytes,
/// type and length byte included); a zero length byte wraps to the largest length.
pub open spec fn option_data_length(lb: u8) -> int {
    if lb == 0 {
        usize::MAX - 1
    } else {
        lb * 8 - 2
    }
}

/// The `(type, data)` frames of the options in `s[i..]`, or `None` where they are truncated.
pub open spec fn frames(s: Seq<u8>, i: int) -> Option<Seq<(u8, Seq<u8>)>>
    decreases s.len() - i,
{
    if i < 0 || i >= s.len() {
        Some(Seq::empty())
    } else if i + 1 >= s.len() {
        None
    } else {
        let l = option_data_length(s[i + 1]);
        if i + 2 + l > s.len() {
            None
        } else {
            match frames(s, i + 2 + l) {
                None => None,
                Some(rest) => Some(seq![(s[i], s.subrange(i + 2, i + 2 + l))].add(rest)),
            }
        }
    }
}

/// Outcome of parsing option frames: the options, a malformed option, or an
/// unsupported one (a redirected header, on which the parser panics).
pub enum OptionsOutcome {
    Parsed(Seq<OptionView>),
    Malformed,
    Unsupported,
}

/// The prefix information carried by the 30 bytes `d`.
pub open spec fn prefix_information_of(d: Seq<u8>) -> PrefixInformation {
    PrefixInformation {
        prefix_length: d[0],
        flags1: d[1],
        valid_lifetime: be32(d, 2),
        preferred_lifetime: be32(d, 6),
        reserved2: be32(d, 10),
        prefix: arbitrary_prefix(d),
    }
}

/// The 16-byte array whose bytes are `d[14..30]`.
pub open spec fn arbitrary_prefix(d: Seq<u8>) -> [u8; 16] {
    choose|a: [u8; 16]| a@ == d.subrange(14, 30)
}

/// The option of type `ty` with data `d`.
pub open spec fn parse_option(ty: u8, d: Seq<u8>) -> OptionsOutcome {
    if ty == OPTION_TYPE_SOURCE_LINK_LAYER_ADDRESS || ty == OPTION_TYPE_TARGET_LINK_LAYER_ADDRESS {
        if d.len() < 6 {
            OptionsOutcome::Malformed
        } else {
            OptionsOutcome::Parsed(seq![OptionView::SourceLinkLayerAddress(d.take(6))])
        }
    } else if ty == OPTION_TYPE_PREFIX_INFORMATION {
        if d.len() < 30 {
            OptionsOutcome::Malformed
        } else {
            OptionsOutcome::Parsed(seq![OptionView::PrefixInformation(prefix_information_of(d))])
        }
    } else if ty == OPTION_TYPE_REDIRECT_HEADER {
        OptionsOutcome::Unsupported
    } else if ty == OPTION_TYPE_MTU {
        if d.len() < 6 || d[0] != 0 || d[1] != 0 {
            OptionsOutcome::Malformed
        } else {
            OptionsOutcome::Parsed(seq![OptionView::Mtu(be32(d, 2))])
        }
    } else if ty == OPTION_DNS_SEARCH_LIST {
        OptionsOutcome::Parsed(seq![OptionView::DnsSearchList(d)])
    } else {
        OptionsOutcome::Parsed(seq![OptionView::Unknown(ty, d)])
    }
}

/// The options of the frames `f[k..]`, parsed in order; the first failure wins.
pub open spec fn parse_options(f: Seq<(u8, Seq<u8>)>, k: int) -> OptionsOutcome
    decreases f.len() - k,
{
    if k < 0 || k >= f.len() {
        OptionsOutcome::Parsed(Seq::empty())
    } else {
        match parse_option(f[k].0, f[k].1) {
            OptionsOutcome::Parsed(o) => match parse_options(f, k + 1) {
                OptionsOutcome::Parsed(rest) => OptionsOutcome::Parsed(o.add(rest)),
                other => other,
            },
            other => other,
        }
    }
}

/// The outcome of parsing the options that follow the 16-byte header of `s`.
pub open spec fn advertisement_options(s: Seq<u8>) -> OptionsOutcome {
    if s.len() < 16 {
        OptionsOutcome::Malformed
    } else {
        match frames(s, 16) {
            None => OptionsOutcome::Malformed,
            Some(f) => parse_options(f, 0),
        }
    }
}

/// The fixed header fields of `ra` are those carried by `s`.
pub open spec fn header_matches(ra: RouterAdvertisement, s: Seq<u8>) -> bool {
    &&& ra.type_ == s[0]
    &&& ra.code == s[1]
    &&& ra.checksum == be16(s, 2)
    &&& ra.cur_hop_limit == s[4]
    &&& ra.flags1 == s[5]
    &&& ra.router_lifetime == be16(s, 6)
    &&& ra.reachable_time == be32(s, 8)
    &&& ra.retrans_timer == be32(s, 12)
}

/// Law: the fixed header is read as RFC 4861 lays it out, each field
/// big-endian: the type (byte 0), the code (byte 1), the checksum (bytes
/// 2-3), the current hop limit (byte 4), the flags (byte 5), the router
/// lifetime (bytes 6-7), the reachable time (bytes 8-11) and the
/// retransmit timer (bytes 12-15).
pub proof fn lemma_header_layout(ra: RouterAdvertisement, s: Seq<u8>)
    requires
        s.len() >= 16,
        header_matches(ra, s),
    ensures
        ra.type_ == s[0],
        ra.code == s[1],
        ra.checksum as int == s[2] as int * 0x100 + s[3] as int,
        ra.cur_hop_limit == s[4],
        ra.flags1 == s[5],
        ra.router_lifetime as int == s[6] as int * 0x100 + s[7] as int,
        ra.reachable_time as int == s[8] as int * 0x100_0000 + s[9] as int * 0x1_0000 + s[10] as int
            * 0x100 + s[11] as int,
        ra.retrans_timer as int == s[12] as int * 0x100_0000 + s[13] as int * 0x1_0000 + s[14] as int
            * 0x100 + s[15] as int,
{
}

/// Law: the prefix information and MTU options are read as RFC 4861 lays
/// them out after their type and length bytes, each number big-endian. A
/// prefix information option of at least 30 bytes of data gives the prefix
/// length (byte 0), the flags (byte 1), the valid lifetime (bytes 2-5) and
/// the preferred lifetime (bytes 6-9); an MTU option whose two reserved
/// bytes are zero gives the MTU in bytes 2-5.
pub proof fn lemma_option_layout(d: Seq<u8>)
    ensures
        ({
            let o = parse_option(OPTION_TYPE_PREFIX_INFORMATION, d);
            d.len() >= 30 ==> o is Parsed && o->Parsed_0.len() == 1
                && o->Parsed_0[0] is PrefixInformation && ({
                let p = o->Parsed_0[0]->PrefixInformation_0;
                &&& p.prefix_length == d[0]
                &&& p.flags1 == d[1]
                &&& p.valid_lifetime as int == d[2] as int * 0x100_0000 + d[3] as int * 0x1_0000
                    + d[4] as int * 0x100 + d[5] as int
                &&& p.preferred_lifetime as int == d[6] as int * 0x100_0000 + d[7] as int
                    * 0x1_0000 + d[8] as int * 0x100 + d[9] as int
            })
        }),
        ({
            let o = parse_option(OPTION_TYPE_MTU, d);
            d.len() >= 6 && d[0] == 0 && d[1] == 0 ==> o is Parsed && o->Parsed_0.len() == 1
                && o->Parsed_0[0] is Mtu && o->Parsed_0[0]->Mtu_0 as int == d[2] as int * 0x100_0000
                + d[3] as int * 0x1_0000 + d[4] as int * 0x100 + d[5] as int
        }),
{
}

/// Skips `length` bytes from `pos`, failing where fewer remain.
fn iter_skip(length: usize, data: &[u8], pos: usize) -> (r: Result<usize, Error>)
    requires
        pos <= data@.len(),
    ensures
        match r {
            Ok(e) => e == pos + length && e <= data@.len(),
            Err(_) => pos + length > data@.len(),
        },
{
    if data.len() - pos < length {
        return Err(Error::truncated());
    }
    Ok(pos + length)
}

/// Reads the type and data length of the option at `pos`; `None` at the end of the data.
fn get_type_len(data: &[u8], pos: usize) -> (r: Result<Option<(u8, usize)>, Error>)
    requires
        pos <= data@.len(),
    ensures
        pos == data@.len() ==> r matches Ok(None),
        (r matches Ok(Some(_))) ==> pos + 2 <= data@.len(),
        pos + 1 == data@.len() ==> r is Err,
        pos + 2 <= data@.len() ==> (r matches Ok(Some((t, l))) && t == data@[pos as int] && l
            == option_data_length(data@[pos + 1])),
{
    if pos == data.len() {
        return Ok(None);
    }
    let type_: u8 = data[pos];
    if pos + 1 == data.len() {
        return Err(Error {});
    }
    let length_byte: u8 = data[pos + 1];
    let length: usize = ((length_byte as usize) * 8).wrapping_sub(2);
    assert(length == option_data_length(length_byte)) by {
        if length_byte == 0 {
            assert(((length_byte as usize) * 8) == 0);
        }
    }
    Ok(Some((type_, length)))
}

/// Reads a link-layer address from the first six bytes of `d`.
fn read_link_layer_address(d: &[u8]) -> (r: Result<LinkLayerAddress, Error>)
    ensures
        r is Err <==> d@.len() < 6,
        r matches Ok(a) ==> a.0@ == d@.take(6),
{
    if d.len() < 6 {
        return Err(Error {});
    }
    let a = LinkLayerAddress([d[0], d[1], d[2], d[3], d[4], d[5]]);
    assert(a.0@ =~= d@.take(6));
    Ok(a)
}

/// Reads a 16-byte address from `d[at..at + 16]`.
fn read_addr16(d: &[u8], at: usize) -> (r: [u8; 16])
    requires
        at + 16 <= d@.len(),
    ensures
        r@ == d@.subrange(at as int, at + 16),
{
    let r = [
        d[at],
        d[at + 1],
        d[at + 2],
        d[at + 3],
        d[at + 4],
        d[at + 5],
        d[at + 6],
        d[at + 7],
        d[at + 8],
        d[at + 9],
        d[at + 10],
        d[at + 11],
        d[at + 12],
        d[at + 13],
        d[at + 14],
        d[at + 15],
    ];
    assert(r@ =~= d@.subrange(at as int, at + 16));
    r
}

/// Reads the prefix information option carried by `d`.
fn read_prefix_information(d: &[u8]) -> (r: Result<PrefixInformation, Error>)
    ensures
        r is Err <==> d@.len() < 30,
        r matches Ok(p) ==> p == prefix_information_of(d@),
{
    if d.len() < 30 {
        return Err(Error::truncated());
    }
    let valid_lifetime = read_be_u32(&d[2..6]);
    let preferred_lifetime = read_be_u32(&d[6..10]);
    let reserved2 = read_be_u32(&d[10..14]);
    let prefix = read_addr16(d, 14);
    let p = PrefixInformation {
        prefix_length: d[0],
        flags1: d[1],
        valid_lifetime,
        preferred_lifetime,
        reserved2,
        prefix,
    };
    proof {
        assert(d@.subrange(2, 6) =~= d@.subrange(2, 6));
        assert(be32(d@.subrange(2, 6), 0) == be32(d@, 2));
        assert(be32(d@.subrange(6, 10), 0) == be32(d@, 6));
        assert(be32(d@.subrange(10, 14), 0) == be32(d@, 10));
        let q = prefix_information_of(d@);
        assert(q.prefix@ == d@.subrange(14, 30));
        assert(q.prefix@ == p.prefix@);
        assert(q.prefix == p.prefix);
    }
    Ok(p)
}

/// Reads the MTU option carried by `d`; its two reserved bytes must be zero.
fn read_mtu(d: &[u8]) -> (r: Result<Mtu, Error>)
    ensures
        r is Err <==> (d@.len() < 6 || d@[0] != 0 || d@[1] != 0),
        r matches Ok(m) ==> m.mtu == be32(d@, 2),
{
    if d.len() < 6 {
        return Err(Error {});
    }
    let reserved1 = read_be_u16(&d[0..2]);
    let mtu = read_be_u32(&d[2..6]);
    assert(be32(d@.subrange(2, 6), 0) == be32(d@, 2));
    assert(be16(d@.subrange(0, 2), 0) == be16(d@, 0));
    if reserved1 != 0 {
        return Err(Error {});
    }
    Ok(Mtu { mtu })
}

/// Parses one option of type `type_` with data `d`.
fn read_option(type_: u8, d: &[u8]) -> (r: Result<RouterAdvertisementOption, Error>)
    requires
        !(parse_option(type_, d@) is Unsupported),
    ensures
        match parse_option(type_, d@) {
            OptionsOutcome::Parsed(o) => r matches Ok(x) && o == seq![x@],
            _ => r is Err,
        },
{
    if type_ == OPTION_TYPE_SOURCE_LINK_LAYER_ADDRESS || type_ == OPTION_TYPE_TARGET_LINK_LAYER_ADDRESS {
        let addr = read_link_layer_address(d)?;
        Ok(RouterAdvertisementOption::SourceLinkLayerAddress(addr))
    } else if type_ == OPTION_TYPE_PREFIX_INFORMATION {
        let p = read_prefix_information(d)?;
        Ok(RouterAdvertisementOption::PrefixInformation(p))
    } else if type_ == OPTION_TYPE_MTU {
        let m = read_mtu(d)?;
        Ok(RouterAdvertisementOption::Mtu(m))
    } else if type_ == OPTION_DNS_SEARCH_LIST {
        Ok(RouterAdvertisementOption::DnsSearchList(vstd::slice::slice_to_vec(d)))
    } else {
        Ok(RouterAdvertisementOption::Unknown(type_, vstd::slice::slice_to_vec(d)))
    }
}

/// The frames from `i` are the frame at `i` and the frames after it.
proof fn lemma_frames_step(s: Seq<u8>, i: int)
    requires
        0 <= i < s.len(),
        frames(s, i) is Some,
    ensures
        i + 1 < s.len(),
        i + 2 + option_data_length(s[i + 1]) <= s.len(),
        frames(s, i + 2 + option_data_length(s[i + 1])) is Some,
        frames(s, i)->0 == seq![(s[i], s.subrange(i + 2, i + 2 + option_data_length(s[i + 1])))].add(
            frames(s, i + 2 + option_data_length(s[i + 1]))->0,
        ),
{
}

/// Checks that the options in `data[pos..]` are framed within the data.
fn check_framing(data: &[u8], pos: usize) -> (r: bool)
    requires
        pos <= data@.len(),
    ensures
        r == (frames(data@, pos as int) is Some),
{
    let mut p: usize = pos;
    let n: usize = data.len();
    loop
        invariant
            pos <= p <= data@.len(),
            n == data@.len(),
            (frames(data@, pos as int) is Some) == (frames(data@, p as int) is Some),
        decreases data@.len() - p,
    {
        let tl = get_type_len(data, p);
        match tl {
            Err(_) => {
                return false;
            },
            Ok(None) => {
                return true;
            },
            Ok(Some((_t, length))) => {
                match iter_skip(length, data, p + 2) {
                    Err(_) => {
                        return false;
                    },
                    Ok(e) => {
                        p = e;
                    },
                }
            },
        }
    }
}

/// Parses the router advertisement `data`: the 16-byte header, then its options.
pub fn read_byte_iter(data: &[u8]) -> (r: Result<RouterAdvertisement, Error>)
    requires
        !(advertisement_options(data@) is Unsupported),
    ensures
        match advertisement_options(data@) {
            OptionsOutcome::Parsed(opts) => r matches Ok(ra) && header_matches(ra, data@)
                && ra.options@.map_values(|o: RouterAdvertisementOption| o@) == opts,
            _ => r is Err,
        },
        r matches Ok(ra) ==> ra.reachable_time as int == data@[8] as int * 0x100_0000 + data@[9] as int
            * 0x1_0000 + data@[10] as int * 0x100 + data@[11] as int,
        r matches Ok(ra) ==> ra.retrans_timer as int == data@[12] as int * 0x100_0000 + data@[13] as int
            * 0x1_0000 + data@[14] as int * 0x100 + data@[15] as int,
{
    if data.len() < 16 {
        return Err(Error::truncated());
    }
    let checksum = read_be_u16(&data[2..4]);
    let router_lifetime = read_be_u16(&data[6..8]);
    let reachable_time = read_be_u32(&data[8..12]);
    let retrans_timer = read_be_u32(&data[12..16]);
    assert(be16(data@.subrange(2, 4), 0) == be16(data@, 2));
    assert(be16(data@.subrange(6, 8), 0) == be16(data@, 6));
    assert(be32(data@.subrange(8, 12), 0) == be32(data@, 8));
    assert(be32(data@.subrange(12, 16), 0) == be32(data@, 12));
    if !check_framing(data, 16) {
        return Err(Error {});
    }
    let ghost f = frames(data@, 16)->0;
    let mut options: Vec<RouterAdvertisementOption> = Vec::new();
    let mut p: usize = 16;
    let ghost mut k: int = 0;
    proof {
        match parse_options(f, 0) {
            OptionsOutcome::Parsed(rest) => {
                assert(options@.map_values(|o: RouterAdvertisementOption| o@).add(rest) =~= rest);
            },
            _ => {},
        }
        assert(f.subrange(0, f.len() as int) =~= f);
    }
    while p < data.len()
        invariant
            16 <= p <= data@.len(),
            frames(data@, p as int) is Some,
            0 <= k <= f.len(),
            frames(data@, p as int)->0 == f.subrange(k, f.len() as int),
            parse_options(f, 0) == match parse_options(f, k) {
                OptionsOutcome::Parsed(rest) => OptionsOutcome::Parsed(
                    options@.map_values(|o: RouterAdvertisementOption| o@).add(rest),
                ),
                other => other,
            },
            !(parse_options(f, 0) is Unsupported),
            f == frames(data@, 16)->0,
        decreases data@.len() - p,
    {
        proof {
            lemma_frames_step(data@, p as int);
            assert(frames(data@, p as int)->0.len() > 0);
            assert(k < f.len());
        }
        let type_: u8 = data[p];
        let length: usize = match get_type_len(data, p) {
            Ok(Some((_t, l))) => l,
            _ => {
                assert(false);
                0
            },
        };
        let end: usize = p + 2 + length;
        let d = &data[p + 2..end];
        proof {
            assert(f.subrange(k, f.len() as int)[0] == f[k]);
            assert(f[k] == (type_, d@));
        }
        match read_option(type_, d) {
            Err(e) => {
                return Err(e);
            },
            Ok(opt) => {
                let ghost before = options@.map_values(|o: RouterAdvertisementOption| o@);
                options.push(opt);
                proof {
                    let after = options@.map_values(|o: RouterAdvertisementOption| o@);
                    assert(after =~= before.push(opt@));
                    assert(f.subrange(k + 1, f.len() as int) =~= f.subrange(k, f.len() as int).drop_first());
                    match parse_options(f, k + 1) {
                        OptionsOutcome::Parsed(rest) => {
                            assert(before.add(seq![opt@].add(rest)) =~= after.add(rest));
                        },
                        _ => {},
                    }
                    k = k + 1;
                }
                p = end;
            },
        }
    }
    proof {
        assert(frames(data@, p as int)->0.len() == 0);
        assert(k == f.len());
        assert(options@.map_values(|o: RouterAdvertisementOption| o@).add(Seq::empty())
            =~= options@.map_values(|o: RouterAdvertisementOption| o@));
    }
    Ok(
        RouterAdvertisement {
            type_: data[0],
            code: data[1],
            checksum,
            cur_hop_limit: data[4],
            flags1: data[5],
            router_lifetime,
            reachable_time,
            retrans_timer,
            options,
        },
    )
}

} // verus!
