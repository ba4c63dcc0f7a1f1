//! Reading the PROXY protocol header that a load balancer puts in front of a
//! client connection: the `ppp` crate parses it, and the multiplexor decides
//! whether to wait for more bytes, give up, or go on with the addresses.

use vstd::prelude::*;

use ppp::{v1, v2, PartialResult};

use crate::mgmt::{extend_bytes, extend_str, utf8_of};
use crate::ipv6_text::ipv6_text;
use crate::proxy_model::{
    ipv4_text, port_or_zero, proxy_from_socket_addr_pair, proxy_v1_text, HaproxyProxyHeaderVersion,
    ProxyAddresses,
};
use crate::session::SocketAddrPair;

verus! {

/// What parsing the start of a connection as a PROXY header gives: the
/// header's length and the addresses it carries, a header that more bytes
/// could complete, or bytes that are no header.
#[derive(Debug, Clone, Copy)]
pub enum ProxyParse {
    Header(usize, ProxyAddresses),
    Incomplete,
    Invalid,
}

/// What `ppp` parses from the bytes `input` as a version 1 (text) header.
pub uninterp spec fn ppp_v1_parse(input: Seq<u8>) -> ProxyParse;

/// What `ppp` parses from the bytes `input` as a version 2 (binary) header.
pub uninterp spec fn ppp_v2_parse(input: Seq<u8>) -> ProxyParse;

/// `ppp::v1::Header::try_from` on bytes: the header at the start of `input`,
/// its length being that of the text it was read from, which is a prefix of
/// `input`; an error that `ppp` counts as incomplete, or another. What is
/// parsed is named, not stated.
#[verifier::external_body]
fn parse_v1_header(input: &[u8]) -> (r: ProxyParse)
    ensures
        r == ppp_v1_parse(input@),
        r matches ProxyParse::Header(n, _) ==> n <= input@.len(),
{
    match v1::Header::try_from(input) {
        Ok(h) => ProxyParse::Header(h.header.len(), match h.addresses {
            v1::Addresses::Tcp4(a) => ProxyAddresses::IPv4 { source_address: a.source_address.octets(), destination_address: a.destination_address.octets(), source_port: Some(a.source_port), destination_port: Some(a.destination_port) },
            v1::Addresses::Tcp6(a) => ProxyAddresses::IPv6 { source_address: a.source_address.segments(), destination_address: a.destination_address.segments(), source_port: Some(a.source_port), destination_port: Some(a.destination_port) },
            v1::Addresses::Unknown => ProxyAddresses::Unspecified,
        }),
        Err(e) => if e.is_incomplete() { ProxyParse::Incomplete } else { ProxyParse::Invalid },
    }
}

/// `ppp::v2::Header::try_from`: the binary header at the start of `input`,
/// its length being that of the bytes it was read from, a prefix of `input`;
/// an error that `ppp` counts as incomplete, or another. What is parsed is
/// named, not stated.
#[verifier::external_body]
fn parse_v2_header(input: &[u8]) -> (r: ProxyParse)
    ensures
        r == ppp_v2_parse(input@),
        r matches ProxyParse::Header(n, _) ==> n <= input@.len(),
{
    match v2::Header::try_from(input) {
        Ok(h) => ProxyParse::Header(h.len(), match h.addresses {
            v2::Addresses::IPv4(a) => ProxyAddresses::IPv4 { source_address: a.source_address.octets(), destination_address: a.destination_address.octets(), source_port: Some(a.source_port), destination_port: Some(a.destination_port) },
            v2::Addresses::IPv6(a) => ProxyAddresses::IPv6 { source_address: a.source_address.segments(), destination_address: a.destination_address.segments(), source_port: Some(a.source_port), destination_port: Some(a.destination_port) },
            v2::Addresses::Unix(_) => ProxyAddresses::Unix,
            v2::Addresses::Unspecified => ProxyAddresses::Unspecified,
        }),
        Err(e) => if e.is_incomplete() { ProxyParse::Incomplete } else { ProxyParse::Invalid },
    }
}

/// Why a PROXY header is refused: the client stopped sending before it was
/// complete, or the bytes are no header.
#[derive(Debug, Clone, Copy, PartialEq, Eq, Structural)]
pub enum HaproxyHeaderError {
    IncompleteHandshake,
    InvalidHandshake,
}

impl HaproxyHeaderError {
    /// The text of the error.
    pub fn to_display_string(&self) -> (r: String)
        ensures
            r@ == match *self {
                HaproxyHeaderError::IncompleteHandshake => "incomplete handshake"@,
                HaproxyHeaderError::InvalidHandshake => "invalid handshake"@,
            },
    {
        broadcast use vstd::string::to_string_from_display_ensures_for_str;

        match self {
            HaproxyHeaderError::IncompleteHandshake => "incomplete handshake".to_string(),
            HaproxyHeaderError::InvalidHandshake => "invalid handshake".to_string(),
        }
    }
}

/// The decision on a parse `parsed` of the bytes received so far, where
/// `eof` says whether the client has stopped sending: go on with the header,
/// wait for more bytes (`None`), or give up.
pub open spec fn spec_haproxy_outcome(parsed: ProxyParse, eof: bool) -> Result<
    Option<(usize, ProxyAddresses)>,
    HaproxyHeaderError,
> {
    match parsed {
        ProxyParse::Header(n, a) => Ok(Some((n, a))),
        ProxyParse::Incomplete => if eof {
            Err(HaproxyHeaderError::IncompleteHandshake)
        } else {
            Ok(None)
        },
        ProxyParse::Invalid => Err(HaproxyHeaderError::InvalidHandshake),
    }
}

/// The decision on the parse `parsed`, as `spec_haproxy_outcome` says.
pub fn haproxy_outcome(parsed: ProxyParse, eof: bool) -> (r: Result<
    Option<(usize, ProxyAddresses)>,
    HaproxyHeaderError,
>)
    ensures
        r == spec_haproxy_outcome(parsed, eof),
{
    match parsed {
        ProxyParse::Header(n, a) => Ok(Some((n, a))),
        ProxyParse::Incomplete => if eof {
            Err(HaproxyHeaderError::IncompleteHandshake)
        } else {
            Ok(None)
        },
        ProxyParse::Invalid => Err(HaproxyHeaderError::InvalidHandshake),
    }
}

/// What `ppp` parses from `input` as a header of version `version`.
pub open spec fn ppp_parse(version: HaproxyProxyHeaderVersion, input: Seq<u8>) -> ProxyParse {
    match version {
        HaproxyProxyHeaderVersion::Version1 => ppp_v1_parse(input),
        HaproxyProxyHeaderVersion::Version2 => ppp_v2_parse(input),
    }
}

/// Reads the PROXY header of version `version` at the start of `sdata`:
/// its length and addresses, `None` while more bytes may complete it, or
/// the error; the length never exceeds what was received.
pub fn detect_haproxy_header(version: HaproxyProxyHeaderVersion, sdata: &[u8], eof: bool) -> (r:
    Result<Option<(usize, ProxyAddresses)>, HaproxyHeaderError>)
    ensures
        r == spec_haproxy_outcome(ppp_parse(version, sdata@), eof),
        r matches Ok(Some((n, _))) ==> n <= sdata@.len(),
{
    let parsed = match version {
        HaproxyProxyHeaderVersion::Version1 => parse_v1_header(sdata),
        HaproxyProxyHeaderVersion::Version2 => parse_v2_header(sdata),
    };
    haproxy_outcome(parsed, eof)
}

/// The signature that starts a binary (version 2) PROXY header.
pub open spec fn v2_signature() -> Seq<u8> {
    seq![0x0du8, 0x0a, 0x0d, 0x0a, 0x00, 0x0d, 0x0a, 0x51, 0x55, 0x49, 0x54, 0x0a]
}

/// The two bytes of `n`, most significant first.
pub open spec fn u16_be(n: u16) -> Seq<u8> {
    seq![(n / 256) as u8, (n % 256) as u8]
}

/// The sixteen bytes of the IPv6 address with segments `s`, in network order.
pub open spec fn segments_be(s: [u16; 8]) -> Seq<u8> {
    Seq::new(
        16,
        |i: int|
            if i % 2 == 0 {
                (s@[i / 2] / 256) as u8
            } else {
                (s@[i / 2] % 256) as u8
            },
    )
}

/// The byte that names the address family of `a` carried over a stream,
/// and the address bytes of a binary header for `a`: source address,
/// destination address, source port and destination port.
pub open spec fn v2_addresses(a: ProxyAddresses) -> (u8, Seq<u8>) {
    match a {
        ProxyAddresses::IPv4 { source_address, destination_address, source_port, destination_port } => (
            0x11u8,
            source_address@ + destination_address@ + u16_be(port_or_zero(source_port)) + u16_be(
                port_or_zero(destination_port),
            ),
        ),
        ProxyAddresses::IPv6 { source_address, destination_address, source_port, destination_port } => (
            0x21u8,
            segments_be(source_address) + segments_be(destination_address) + u16_be(
                port_or_zero(source_port),
            ) + u16_be(port_or_zero(destination_port)),
        ),
        _ => (0x01u8, Seq::empty()),
    }
}

/// The binary PROXY header of the `PROXY` command over a stream for `a`: the
/// signature, version and command, family, the length of what follows, and
/// the address bytes.
pub open spec fn v2_header(a: ProxyAddresses) -> Seq<u8> {
    let (family, body) = v2_addresses(a);
    v2_signature() + seq![0x21u8, family] + u16_be(body.len() as u16) + body
}

/// Whether `a` carries both ports where it carries addresses.
pub open spec fn ports_given(a: ProxyAddresses) -> bool {
    match a {
        ProxyAddresses::IPv4 { source_port, destination_port, .. } => source_port is Some
            && destination_port is Some,
        ProxyAddresses::IPv6 { source_port, destination_port, .. } => source_port is Some
            && destination_port is Some,
        _ => true,
    }
}

/// `ppp::v2::Builder::with_addresses` with version 2, the `PROXY` command and
/// the stream protocol, then `build`. Claimed, as the builder's source
/// writes it: the signature, the version-and-command byte, the family and
/// protocol byte, the length of the addresses big-endian, then the addresses.
#[verifier::external_body]
fn v2_header_bytes(a: &ProxyAddresses) -> (r: Vec<u8>)
    requires
        !(a is Unix),
        ports_given(*a),
    ensures
        r@ == v2_header(*a),
{
    let addresses = match *a {
        ProxyAddresses::IPv4 { source_address: s, destination_address: d, source_port: p, destination_port: q } => v2::Addresses::IPv4(v2::IPv4::new(s, d, p.unwrap(), q.unwrap())),
        ProxyAddresses::IPv6 { source_address: s, destination_address: d, source_port: p, destination_port: q } => v2::Addresses::IPv6(v2::IPv6::new(s, d, p.unwrap(), q.unwrap())),
        _ => v2::Addresses::Unspecified,
    };
    v2::Builder::with_addresses(v2::Version::Two | v2::Command::Proxy, v2::Protocol::Stream, addresses).build().unwrap()
}

/// The addresses a PROXY header written for `pair` carries: the peer is the
/// source, this side the destination; a unix or unknown pair carries none.
pub open spec fn pair_addresses(pair: SocketAddrPair) -> ProxyAddresses {
    match pair {
        SocketAddrPair::V4 { local_addr, peer_addr } => ProxyAddresses::IPv4 {
            source_address: peer_addr.ip,
            destination_address: local_addr.ip,
            source_port: Some(peer_addr.port),
            destination_port: Some(local_addr.port),
        },
        SocketAddrPair::V6 { local_addr, peer_addr } => ProxyAddresses::IPv6 {
            source_address: peer_addr.ip,
            destination_address: local_addr.ip,
            source_port: Some(peer_addr.port),
            destination_port: Some(local_addr.port),
        },
        _ => ProxyAddresses::Unspecified,
    }
}

/// The text (version 1) PROXY header for `a`: the protocol, source and
/// destination addresses and ports, or `UNKNOWN` where `a` carries no
/// addresses.
pub open spec fn v1_text(a: ProxyAddresses) -> Seq<char> {
    match a {
        ProxyAddresses::IPv4 { source_address, destination_address, source_port, destination_port } =>
            proxy_v1_text(
            false,
            ipv4_text(source_address),
            ipv4_text(destination_address),
            port_or_zero(source_port),
            port_or_zero(destination_port),
        ),
        ProxyAddresses::IPv6 { source_address, destination_address, source_port, destination_port } =>
            proxy_v1_text(
            true,
            ipv6_text(source_address@),
            ipv6_text(destination_address@),
            port_or_zero(source_port),
            port_or_zero(destination_port),
        ),
        _ => "PROXY UNKNOWN\r\n"@,
    }
}

/// `Display` of `ppp::v1::Addresses` (made with `new_tcp4`, `new_tcp6`, or
/// `Unknown`). Claimed, as its source writes it: `PROXY`, the protocol, the
/// source and destination addresses as `std` displays them (dotted quads;
/// RFC 5952 text for IPv6, IPv4-mapped ones with a dotted quad), the two
/// ports in decimal, and `\r\n`; `PROXY UNKNOWN\r\n` without addresses.
#[verifier::external_body]
fn v1_header_text(a: &ProxyAddresses) -> (r: String)
    requires
        !(a is Unix),
        ports_given(*a),
    ensures
        r@ == v1_text(*a),
{
    match *a {
        ProxyAddresses::IPv4 { source_address: s, destination_address: d, source_port: p, destination_port: q } => v1::Addresses::new_tcp4(s, d, p.unwrap(), q.unwrap()).to_string(),
        ProxyAddresses::IPv6 { source_address: s, destination_address: d, source_port: p, destination_port: q } => v1::Addresses::new_tcp6(s, d, p.unwrap(), q.unwrap()).to_string(),
        _ => v1::Addresses::Unknown.to_string(),
    }
}

/// The PROXY header of version `v` that carries the addresses `a`.
pub open spec fn header_for_addresses(v: HaproxyProxyHeaderVersion, a: ProxyAddresses) -> Seq<u8> {
    match v {
        HaproxyProxyHeaderVersion::Version1 => utf8_of(v1_text(a)),
        HaproxyProxyHeaderVersion::Version2 => v2_header(a),
    }
}

/// The PROXY header of version `v` that announces the connection `pair` to a
/// backend: the peer as source, this side as destination.
pub open spec fn header_for_pair(v: HaproxyProxyHeaderVersion, pair: SocketAddrPair) -> Seq<u8> {
    header_for_addresses(v, pair_addresses(pair))
}

/// Appends to `dst` the PROXY header of version `v` carrying the addresses
/// `h` that a client's own PROXY header gave. A unix-socket header cannot be
/// written again: its addresses are not kept.
pub fn write_haproxy_header_from_parsed(
    dst: &mut Vec<u8>,
    v: HaproxyProxyHeaderVersion,
    h: &ProxyAddresses,
)
    requires
        !(h is Unix),
        ports_given(*h),
    ensures
        final(dst)@ == old(dst)@ + header_for_addresses(v, *h),
{
    match v {
        HaproxyProxyHeaderVersion::Version1 => {
            let line = v1_header_text(h);
            extend_str(dst, line.as_str());
        },
        HaproxyProxyHeaderVersion::Version2 => {
            let bytes = v2_header_bytes(h);
            extend_bytes(dst, bytes.as_slice());
        },
    }
}

/// Appends to `dst` the PROXY header of version `v` for the connection `ap`.
pub fn write_haproxy_header_from_socketaddr(
    dst: &mut Vec<u8>,
    v: HaproxyProxyHeaderVersion,
    ap: SocketAddrPair,
)
    ensures
        final(dst)@ == old(dst)@ + header_for_pair(v, ap),
{
    let addresses = proxy_from_socket_addr_pair(ap);
    write_haproxy_header_from_parsed(dst, v, &addresses);
}

/// Whether a backend gets the client's own PROXY header passed on: the
/// backend asks for a header and allows passing one through, and the client
/// sent one.
pub open spec fn passes_through(
    backend_version: Option<HaproxyProxyHeaderVersion>,
    allow_passthrough: bool,
    client_header: Option<ProxyAddresses>,
) -> bool {
    backend_version is Some && allow_passthrough && client_header is Some
}

/// The bytes a backend receives before the rest of the stream: the client's
/// handshake `handshake`, preceded, where the backend asks for a PROXY header
/// of version `v`, by that header: rebuilt from the client's own header where
/// one is passed through, else written for the connection `client_addr`.
pub open spec fn backend_prefix(
    backend_version: Option<HaproxyProxyHeaderVersion>,
    allow_passthrough: bool,
    client_header: Option<ProxyAddresses>,
    client_addr: SocketAddrPair,
    handshake: Seq<u8>,
) -> Seq<u8> {
    match backend_version {
        None => handshake,
        Some(v) => if passes_through(backend_version, allow_passthrough, client_header) {
            header_for_addresses(v, client_header->0) + handshake
        } else {
            header_for_pair(v, client_addr) + handshake
        },
    }
}

/// The bytes to send a backend first, as `backend_prefix` says.
pub fn backend_stream_prefix(
    backend_version: Option<HaproxyProxyHeaderVersion>,
    allow_passthrough: bool,
    client_header: Option<ProxyAddresses>,
    client_addr: SocketAddrPair,
    handshake: &[u8],
) -> (r: Vec<u8>)
    requires
        passes_through(backend_version, allow_passthrough, client_header) ==> !(client_header->0 is Unix)
            && ports_given(client_header->0),
    ensures
        r@ == backend_prefix(backend_version, allow_passthrough, client_header, client_addr, handshake@),
{
    let mut out: Vec<u8> = Vec::new();
    match backend_version {
        None => {},
        Some(v) => {
            match client_header {
                Some(h) => {
                    if allow_passthrough {
                        write_haproxy_header_from_parsed(&mut out, v, &h);
                    } else {
                        write_haproxy_header_from_socketaddr(&mut out, v, client_addr);
                    }
                },
                None => write_haproxy_header_from_socketaddr(&mut out, v, client_addr),
            }
        },
    }
    extend_bytes(&mut out, handshake);
    assert(out@ =~= backend_prefix(backend_version, allow_passthrough, client_header, client_addr, handshake@));
    out
}

} // verus!
