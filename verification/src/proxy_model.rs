//! The proxy's model of backends and client connections: PROXY protocol
//! versions, backend addresses as written in its configuration, the client
//! addresses that a PROXY header carries, and the text of a PROXY v1 line.

use vstd::prelude::*;

use crate::boot::{starts_with, str_equals};
use crate::ipv6_text::{ipv6_text, ipv6_to_string};
use crate::session::{SocketAddrPair, SocketAddrV4, SocketAddrV6};
use crate::strings::{dec, push_decimal, push_str, string_from_chars};
use crate::text::chars_of;

verus! {

/// The version of the PROXY protocol header.
#[derive(Debug, Clone, Copy, PartialEq, Eq, Structural)]
pub enum HaproxyProxyHeaderVersion {
    Version1,
    Version2,
}

/// How a client connection arrives: behind a PROXY header of some version, or not.
#[derive(Debug, Clone, Copy)]
pub struct ClientCtx {
    pub proxy_header_version: Option<HaproxyProxyHeaderVersion>,
}

/// How a backend is reached: with a PROXY header of some version or none,
/// and whether a client's own header may be passed on.
#[derive(Debug, Clone, Copy)]
pub struct BackendCtx {
    pub proxy_header_version: Option<HaproxyProxyHeaderVersion>,
    pub proxy_header_passthrough: bool,
}

/// A flag of a backend.
#[derive(Debug, Clone, Copy)]
pub enum BackendArgsFlags {
    UseHaproxy(HaproxyProxyHeaderVersion),
}

/// A socket address.
#[derive(Debug, Clone, Copy)]
pub enum SocketAddr {
    V4(SocketAddrV4),
    V6(SocketAddrV6),
}

/// Where a backend listens: a unix socket path, a TCP address, a host name
/// to look up, or an SRV name.
#[derive(Debug, Clone)]
pub enum NetworkLocationAddress {
    Unix(String),
    Tcp(SocketAddr),
    Hostname(String),
    Srv(String),
}

/// A backend address that could not be read.
#[derive(Debug, Clone, Copy)]
pub struct InvalidNetworkLocationAddress;

/// A backend to add: the host name it serves, where it listens, and its flags.
#[derive(Debug, Clone)]
pub struct BackendArgs {
    pub hostname: String,
    pub target_address: NetworkLocationAddress,
    pub flags: Vec<BackendArgsFlags>,
}

/// The address that the text `from` names, given what reading it as a socket
/// address gives (`tcp`): `unix:` and `dns:` prefixes name a socket path and
/// a host; else a socket address; else text with a `/` is a path; else a host.
pub open spec fn spec_network_location(from: Seq<char>, tcp: Option<SocketAddr>) -> (Seq<
    char,
>, int, Option<SocketAddr>) {
    if starts_with(from, "unix:"@) {
        (from.skip(5), 0, None)
    } else if starts_with(from, "dns:"@) {
        (from.skip(4), 2, None)
    } else if tcp is Some {
        (Seq::empty(), 1, tcp)
    } else if from.contains('/') {
        (from, 0, None)
    } else {
        (from, 2, None)
    }
}

/// The kind, text and socket address of `a`: 0 for a path, 1 for TCP, 2 for
/// a host, 3 for an SRV name.
pub open spec fn location_view(a: NetworkLocationAddress) -> (Seq<char>, int, Option<SocketAddr>) {
    match a {
        NetworkLocationAddress::Unix(p) => (p@, 0, None),
        NetworkLocationAddress::Tcp(sa) => (Seq::empty(), 1, Some(sa)),
        NetworkLocationAddress::Hostname(h) => (h@, 2, None),
        NetworkLocationAddress::Srv(s) => (s@, 3, None),
    }
}

impl NetworkLocationAddress {
    /// The backend address that the text `from` names; `tcp` is what reading
    /// `from` as a socket address gives.
    pub fn from_str(from: &str, tcp: Option<SocketAddr>) -> (r: NetworkLocationAddress)
        ensures
            location_view(r) == spec_network_location(from@, tcp),
    {
        proof {
            reveal_strlit("unix:");
            reveal_strlit("dns:");
        }
        let v = chars_of(from);
        let n = v.len();
        if n >= 5 && v[0] == 'u' && v[1] == 'n' && v[2] == 'i' && v[3] == 'x' && v[4] == ':' {
            assert(from@.take(5) =~= "unix:"@);
            let path = string_from_chars(&v.as_slice()[5..n]);
            assert(path@ =~= from@.skip(5));
            return NetworkLocationAddress::Unix(path);
        }
        assert(!starts_with(from@, "unix:"@)) by {
            if starts_with(from@, "unix:"@) {
                assert(from@.take(5)[0] == 'u' && from@.take(5)[1] == 'n' && from@.take(5)[2] == 'i'
                    && from@.take(5)[3] == 'x' && from@.take(5)[4] == ':');
            }
        }
        if n >= 4 && v[0] == 'd' && v[1] == 'n' && v[2] == 's' && v[3] == ':' {
            assert(from@.take(4) =~= "dns:"@);
            let name = string_from_chars(&v.as_slice()[4..n]);
            assert(name@ =~= from@.skip(4));
            return NetworkLocationAddress::Hostname(name);
        }
        assert(!starts_with(from@, "dns:"@)) by {
            if starts_with(from@, "dns:"@) {
                assert(from@.take(4)[0] == 'd' && from@.take(4)[1] == 'n' && from@.take(4)[2] == 's'
                    && from@.take(4)[3] == ':');
            }
        }
        if let Some(sa) = tcp {
            return NetworkLocationAddress::Tcp(sa);
        }
        let mut i: usize = 0;
        while i < n
            invariant
                n == v@.len(),
                v@ == from@,
                0 <= i <= n,
                forall|j: int| 0 <= j < i ==> v@[j] != '/',
                !starts_with(from@, "unix:"@),
                !starts_with(from@, "dns:"@),
                tcp is None,
            decreases n - i,
        {
            if v[i] == '/' {
                assert(from@.contains('/')) by {
                    assert(from@[i as int] == '/');
                }
                return NetworkLocationAddress::Unix(from.to_owned());
            }
            i = i + 1;
        }
        NetworkLocationAddress::Hostname(from.to_owned())
    }
}

/// The text of the configuration value for a PROXY header version.
pub open spec fn spec_haproxy_version_text(v: Option<HaproxyProxyHeaderVersion>) -> Seq<char> {
    match v {
        Some(HaproxyProxyHeaderVersion::Version1) => "use-haproxy-v1"@,
        Some(HaproxyProxyHeaderVersion::Version2) => "use-haproxy-v2"@,
        None => "none"@,
    }
}

/// The configuration text for the PROXY header version `v`.
pub fn haproxy_version_text(v: Option<HaproxyProxyHeaderVersion>) -> (r: &'static str)
    ensures
        r@ == spec_haproxy_version_text(v),
{
    match v {
        Some(HaproxyProxyHeaderVersion::Version1) => "use-haproxy-v1",
        Some(HaproxyProxyHeaderVersion::Version2) => "use-haproxy-v2",
        None => "none",
    }
}

/// The PROXY header version that the configuration text `s` names; `Err`
/// for any other text.
pub fn parse_haproxy_version_text(s: &str) -> (r: Result<Option<HaproxyProxyHeaderVersion>, ()>)
    ensures
        r matches Ok(v) ==> spec_haproxy_version_text(v) == s@,
        r is Err ==> (forall|v: Option<HaproxyProxyHeaderVersion>| spec_haproxy_version_text(v)
            != s@),
{
    proof {
        reveal_strlit("use-haproxy-v1");
        reveal_strlit("use-haproxy-v2");
        reveal_strlit("none");
    }
    if str_equals(s, "use-haproxy-v1") {
        Ok(Some(HaproxyProxyHeaderVersion::Version1))
    } else if str_equals(s, "use-haproxy-v2") {
        Ok(Some(HaproxyProxyHeaderVersion::Version2))
    } else if str_equals(s, "none") {
        Ok(None)
    } else {
        proof {
            assert forall|v: Option<HaproxyProxyHeaderVersion>| spec_haproxy_version_text(v)
                != s@ by {
                match v {
                    Some(HaproxyProxyHeaderVersion::Version1) => {},
                    Some(HaproxyProxyHeaderVersion::Version2) => {},
                    None => {},
                }
            }
        }
        Err(())
    }
}

/// The client and server addresses that a PROXY header carries.
#[derive(Debug, Clone, Copy)]
#[allow(inconsistent_fields)]
pub enum ProxyAddresses {
    IPv4 {
        source_address: [u8; 4],
        destination_address: [u8; 4],
        source_port: Option<u16>,
        destination_port: Option<u16>,
    },
    IPv6 {
        source_address: [u16; 8],
        destination_address: [u16; 8],
        source_port: Option<u16>,
        destination_port: Option<u16>,
    },
    Unix,
    Unspecified,
}

/// `p`, or 0 where it is absent.
pub open spec fn port_or_zero(p: Option<u16>) -> u16 {
    match p {
        Some(v) => v,
        None => 0,
    }
}

/// The ends of a connection as a PROXY header gives them: the source is the
/// peer, the destination this side; missing ports are 0.
pub fn socket_addr_pair_from_proxy(h: ProxyAddresses) -> (r: SocketAddrPair)
    ensures
        match h {
            ProxyAddresses::IPv4 { source_address, destination_address, source_port, destination_port } =>
                r == SocketAddrPair::V4 {
                local_addr: SocketAddrV4 { ip: destination_address, port: port_or_zero(destination_port) },
                peer_addr: SocketAddrV4 { ip: source_address, port: port_or_zero(source_port) },
            },
            ProxyAddresses::IPv6 { source_address, destination_address, source_port, destination_port } =>
                r == SocketAddrPair::V6 {
                local_addr: SocketAddrV6 {
                    ip: destination_address,
                    port: port_or_zero(destination_port),
                    flowinfo: 0,
                    scope_id: 0,
                },
                peer_addr: SocketAddrV6 {
                    ip: source_address,
                    port: port_or_zero(source_port),
                    flowinfo: 0,
                    scope_id: 0,
                },
            },
            ProxyAddresses::Unix => r is Unix,
            ProxyAddresses::Unspecified => r is Unknown,
        },
{
    match h {
        ProxyAddresses::IPv4 { source_address, destination_address, source_port, destination_port } => {
            SocketAddrPair::V4 {
                local_addr: SocketAddrV4 {
                    ip: destination_address,
                    port: match destination_port {
                        Some(p) => p,
                        None => 0,
                    },
                },
                peer_addr: SocketAddrV4 {
                    ip: source_address,
                    port: match source_port {
                        Some(p) => p,
                        None => 0,
                    },
                },
            }
        },
        ProxyAddresses::IPv6 { source_address, destination_address, source_port, destination_port } => {
            SocketAddrPair::V6 {
                local_addr: SocketAddrV6 {
                    ip: destination_address,
                    port: match destination_port {
                        Some(p) => p,
                        None => 0,
                    },
                    flowinfo: 0,
                    scope_id: 0,
                },
                peer_addr: SocketAddrV6 {
                    ip: source_address,
                    port: match source_port {
                        Some(p) => p,
                        None => 0,
                    },
                    flowinfo: 0,
                    scope_id: 0,
                },
            }
        },
        ProxyAddresses::Unix => SocketAddrPair::Unix,
        ProxyAddresses::Unspecified => SocketAddrPair::Unknown,
    }
}

/// The addresses that a PROXY header written for `pair` carries: the peer is
/// the source, this side the destination; a unix or unknown pair carries none.
pub fn proxy_from_socket_addr_pair(pair: SocketAddrPair) -> (r: ProxyAddresses)
    ensures
        match pair {
            SocketAddrPair::V4 { local_addr, peer_addr } => r == ProxyAddresses::IPv4 {
                source_address: peer_addr.ip,
                destination_address: local_addr.ip,
                source_port: Some(peer_addr.port),
                destination_port: Some(local_addr.port),
            },
            SocketAddrPair::V6 { local_addr, peer_addr } => r == ProxyAddresses::IPv6 {
                source_address: peer_addr.ip,
                destination_address: local_addr.ip,
                source_port: Some(peer_addr.port),
                destination_port: Some(local_addr.port),
            },
            _ => r is Unspecified,
        },
{
    match pair {
        SocketAddrPair::V4 { local_addr, peer_addr } => ProxyAddresses::IPv4 {
            source_address: peer_addr.ip,
            destination_address: local_addr.ip,
            source_port: Some(peer_addr.port),
            destination_port: Some(local_addr.port),
        },
        SocketAddrPair::V6 { local_addr, peer_addr } => ProxyAddresses::IPv6 {
            source_address: peer_addr.ip,
            destination_address: local_addr.ip,
            source_port: Some(peer_addr.port),
            destination_port: Some(local_addr.port),
        },
        SocketAddrPair::Unix => ProxyAddresses::Unspecified,
        SocketAddrPair::Unknown => ProxyAddresses::Unspecified,
    }
}

/// Writing an IPv4 or IPv6 pair into a PROXY header and reading it back
/// gives the same pair, where its IPv6 addresses have no flow or scope.
pub proof fn lemma_proxy_addresses_roundtrip(pair: SocketAddrPair)
    requires
        pair matches SocketAddrPair::V6 { local_addr, peer_addr } ==> local_addr.flowinfo == 0
            && local_addr.scope_id == 0 && peer_addr.flowinfo == 0 && peer_addr.scope_id == 0,
        pair is V4 || pair is V6,
    ensures
        ({
            let h = match pair {
                SocketAddrPair::V4 { local_addr, peer_addr } => ProxyAddresses::IPv4 {
                    source_address: peer_addr.ip,
                    destination_address: local_addr.ip,
                    source_port: Some(peer_addr.port),
                    destination_port: Some(local_addr.port),
                },
                SocketAddrPair::V6 { local_addr, peer_addr } => ProxyAddresses::IPv6 {
                    source_address: peer_addr.ip,
                    destination_address: local_addr.ip,
                    source_port: Some(peer_addr.port),
                    destination_port: Some(local_addr.port),
                },
                _ => ProxyAddresses::Unspecified,
            };
            match h {
                ProxyAddresses::IPv4 { source_address, destination_address, source_port, destination_port } =>
                    pair == SocketAddrPair::V4 {
                    local_addr: SocketAddrV4 { ip: destination_address, port: port_or_zero(destination_port) },
                    peer_addr: SocketAddrV4 { ip: source_address, port: port_or_zero(source_port) },
                },
                ProxyAddresses::IPv6 { source_address, destination_address, source_port, destination_port } =>
                    pair == SocketAddrPair::V6 {
                    local_addr: SocketAddrV6 {
                        ip: destination_address,
                        port: port_or_zero(destination_port),
                        flowinfo: 0,
                        scope_id: 0,
                    },
                    peer_addr: SocketAddrV6 {
                        ip: source_address,
                        port: port_or_zero(source_port),
                        flowinfo: 0,
                        scope_id: 0,
                    },
                },
                _ => false,
            }
        }),
{
}

/// The dotted-quad text of an IPv4 address.
pub open spec fn ipv4_text(ip: [u8; 4]) -> Seq<char> {
    dec(ip[0] as nat) + "."@ + dec(ip[1] as nat) + "."@ + dec(ip[2] as nat) + "."@ + dec(
        ip[3] as nat,
    )
}

/// The dotted-quad text of the IPv4 address `ip`.
pub fn ipv4_to_string(ip: [u8; 4]) -> (r: String)
    ensures
        r@ == ipv4_text(ip),
{
    let mut v: Vec<char> = Vec::new();
    push_decimal(&mut v, ip[0] as u64);
    push_str(&mut v, ".");
    push_decimal(&mut v, ip[1] as u64);
    push_str(&mut v, ".");
    push_decimal(&mut v, ip[2] as u64);
    push_str(&mut v, ".");
    push_decimal(&mut v, ip[3] as u64);
    assert(v@ =~= ipv4_text(ip));
    string_from_chars(v.as_slice())
}

/// A PROXY protocol v1 line: the family, the two addresses and the two
/// ports, ended by a carriage return and a line feed.
pub open spec fn proxy_v1_text(
    tcp6: bool,
    first_ip: Seq<char>,
    second_ip: Seq<char>,
    first_port: u16,
    second_port: u16,
) -> Seq<char> {
    "PROXY "@ + (if tcp6 {
        "TCP6"@
    } else {
        "TCP4"@
    }) + " "@ + first_ip + " "@ + second_ip + " "@ + dec(first_port as nat) + " "@ + dec(
        second_port as nat,
    ) + "\r\n"@
}

/// The PROXY v1 line that names the addresses and ports in the order given.
pub fn proxy_v1_line(
    tcp6: bool,
    first_ip: &str,
    second_ip: &str,
    first_port: u16,
    second_port: u16,
) -> (r: String)
    ensures
        r@ == proxy_v1_text(tcp6, first_ip@, second_ip@, first_port, second_port),
{
    let mut v: Vec<char> = Vec::new();
    push_str(&mut v, "PROXY ");
    if tcp6 {
        push_str(&mut v, "TCP6");
    } else {
        push_str(&mut v, "TCP4");
    }
    push_str(&mut v, " ");
    push_str(&mut v, first_ip);
    push_str(&mut v, " ");
    push_str(&mut v, second_ip);
    push_str(&mut v, " ");
    push_decimal(&mut v, first_port as u64);
    push_str(&mut v, " ");
    push_decimal(&mut v, second_port as u64);
    push_str(&mut v, "\r\n");
    assert(v@ =~= proxy_v1_text(tcp6, first_ip@, second_ip@, first_port, second_port));
    string_from_chars(v.as_slice())
}

/// The PROXY v1 line for the connection `pair`, naming the peer's address
/// and port first where `peer_first` (as the multiplexor does) and this
/// side's first otherwise (as the director does); none for a unix or
/// unknown pair.
pub open spec fn spec_proxy_line_for(pair: SocketAddrPair, peer_first: bool) -> Option<Seq<char>> {
    match pair {
        SocketAddrPair::V4 { local_addr, peer_addr } => Some(
            if peer_first {
                proxy_v1_text(false, ipv4_text(peer_addr.ip), ipv4_text(local_addr.ip), peer_addr.port, local_addr.port)
            } else {
                proxy_v1_text(false, ipv4_text(local_addr.ip), ipv4_text(peer_addr.ip), local_addr.port, peer_addr.port)
            },
        ),
        SocketAddrPair::V6 { local_addr, peer_addr } => Some(
            if peer_first {
                proxy_v1_text(true, ipv6_text(peer_addr.ip@), ipv6_text(local_addr.ip@), peer_addr.port, local_addr.port)
            } else {
                proxy_v1_text(true, ipv6_text(local_addr.ip@), ipv6_text(peer_addr.ip@), local_addr.port, peer_addr.port)
            },
        ),
        _ => None,
    }
}

/// The PROXY v1 line for the connection `pair`.
pub fn proxy_v1_line_for(pair: SocketAddrPair, peer_first: bool) -> (r: Option<String>)
    ensures
        match spec_proxy_line_for(pair, peer_first) {
            Some(t) => r matches Some(s) && s@ == t,
            None => r is None,
        },
{
    match pair {
        SocketAddrPair::V4 { local_addr, peer_addr } => {
            let peer = ipv4_to_string(peer_addr.ip);
            let local = ipv4_to_string(local_addr.ip);
            if peer_first {
                Some(proxy_v1_line(false, peer.as_str(), local.as_str(), peer_addr.port, local_addr.port))
            } else {
                Some(proxy_v1_line(false, local.as_str(), peer.as_str(), local_addr.port, peer_addr.port))
            }
        },
        SocketAddrPair::V6 { local_addr, peer_addr } => {
            let peer = ipv6_to_string(peer_addr.ip);
            let local = ipv6_to_string(local_addr.ip);
            if peer_first {
                Some(proxy_v1_line(true, peer.as_str(), local.as_str(), peer_addr.port, local_addr.port))
            } else {
                Some(proxy_v1_line(true, local.as_str(), peer.as_str(), local_addr.port, peer_addr.port))
            }
        },
        _ => None,
    }
}

/// Two socket addresses of different families cannot make a connection.
#[derive(Debug, Clone, Copy, PartialEq, Eq)]
pub struct AddressFamilyMismatch;

impl AddressFamilyMismatch {
    /// The text of the error.
    pub fn to_display_string(&self) -> (r: String)
        ensures
            r@ == "address families must match"@,
    {
        broadcast use vstd::string::to_string_from_display_ensures_for_str;

        "address families must match".to_string()
    }
}

impl SocketAddrPair {
    /// The peer's address, where the connection has one.
    pub fn peer_addr(&self) -> (r: Option<SocketAddr>)
        ensures
            r == match *self {
                SocketAddrPair::V4 { peer_addr, .. } => Some(SocketAddr::V4(peer_addr)),
                SocketAddrPair::V6 { peer_addr, .. } => Some(SocketAddr::V6(peer_addr)),
                _ => None,
            },
    {
        match *self {
            SocketAddrPair::V4 { peer_addr, .. } => Some(SocketAddr::V4(peer_addr)),
            SocketAddrPair::V6 { peer_addr, .. } => Some(SocketAddr::V6(peer_addr)),
            _ => None,
        }
    }

    /// This side's address, where the connection has one.
    pub fn local_addr(&self) -> (r: Option<SocketAddr>)
        ensures
            r == match *self {
                SocketAddrPair::V4 { local_addr, .. } => Some(SocketAddr::V4(local_addr)),
                SocketAddrPair::V6 { local_addr, .. } => Some(SocketAddr::V6(local_addr)),
                _ => None,
            },
    {
        match *self {
            SocketAddrPair::V4 { local_addr, .. } => Some(SocketAddr::V4(local_addr)),
            SocketAddrPair::V6 { local_addr, .. } => Some(SocketAddr::V6(local_addr)),
            _ => None,
        }
    }

    /// The connection between `local_addr` and `peer_addr`, which must be
    /// of the same family.
    pub fn from_pair(local_addr: SocketAddr, peer_addr: SocketAddr) -> (r: Result<
        SocketAddrPair,
        AddressFamilyMismatch,
    >)
        ensures
            r == match (local_addr, peer_addr) {
                (SocketAddr::V4(l), SocketAddr::V4(p)) => Ok(
                    SocketAddrPair::V4 { local_addr: l, peer_addr: p },
                ),
                (SocketAddr::V6(l), SocketAddr::V6(p)) => Ok(
                    SocketAddrPair::V6 { local_addr: l, peer_addr: p },
                ),
                _ => Err(AddressFamilyMismatch),
            },
    {
        match (local_addr, peer_addr) {
            (SocketAddr::V4(l), SocketAddr::V4(p)) => Ok(SocketAddrPair::V4 { local_addr: l, peer_addr: p }),
            (SocketAddr::V6(l), SocketAddr::V6(p)) => Ok(SocketAddrPair::V6 { local_addr: l, peer_addr: p }),
            _ => Err(AddressFamilyMismatch),
        }
    }
}

} // verus!
