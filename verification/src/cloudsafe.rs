//! Whether an address lies in a network that must not be reached from
//! outside: loopback, private (RFC 1918), shared (RFC 6598) and link-local
//! ranges. The networks are written in CIDR notation and read by the
//! `ip_network` crate.

use vstd::prelude::*;

use ip_network::{Ipv4Network, Ipv6Network};

use crate::netlink_address::IpAddress;

verus! {

/// The network address and prefix length that `ip_network` reads from the
/// CIDR text `s` as an IPv4 network, if it reads one.
pub uninterp spec fn ipv4_network_parse(s: Seq<char>) -> Option<(u32, u8)>;

/// The network address and prefix length that `ip_network` reads from the
/// CIDR text `s` as an IPv6 network, if it reads one.
pub uninterp spec fn ipv6_network_parse(s: Seq<char>) -> Option<(u128, u8)>;

/// `str::parse::<ip_network::Ipv4Network>`, giving the network's address
/// and prefix length. The crate's source refuses a prefix longer than 32;
/// what it reads is named, not stated.
#[verifier::external_body]
fn parse_ipv4_network(s: &str) -> (r: Option<(u32, u8)>)
    ensures
        r == ipv4_network_parse(s@),
        r matches Some((_, n)) ==> n <= 32,
{
    match s.parse::<Ipv4Network>() {
        Ok(n) => Some((u32::from(n.network_address()), n.netmask())),
        Err(_) => None,
    }
}

/// `str::parse::<ip_network::Ipv6Network>`, giving the network's address
/// and prefix length. The crate's source refuses a prefix longer than 128;
/// what it reads is named, not stated.
#[verifier::external_body]
fn parse_ipv6_network(s: &str) -> (r: Option<(u128, u8)>)
    ensures
        r == ipv6_network_parse(s@),
        r matches Some((_, n)) ==> n <= 128,
{
    match s.parse::<Ipv6Network>() {
        Ok(n) => Some((u128::from(n.network_address()), n.netmask())),
        Err(_) => None,
    }
}

/// The IPv4 networks that count as unsafe.
pub open spec fn v4_table() -> Seq<Seq<char>> {
    seq!["127.0.0.0/8"@, "10.0.0.0/8"@, "172.16.0.0/12"@, "192.168.0.0/16"@, "100.64.0.0/10"@]
}

/// The IPv6 networks that count as unsafe.
pub open spec fn v6_table() -> Seq<Seq<char>> {
    seq!["::1/128"@, "fe80::/10"@]
}

/// The IPv4 network `i` of the table.
fn v4_entry(i: usize) -> (r: &'static str)
    requires
        i < 5,
    ensures
        r@ == v4_table()[i as int],
{
    match i {
        0 => "127.0.0.0/8",
        1 => "10.0.0.0/8",
        2 => "172.16.0.0/12",
        3 => "192.168.0.0/16",
        _ => "100.64.0.0/10",
    }
}

/// The IPv6 network `i` of the table.
fn v6_entry(i: usize) -> (r: &'static str)
    requires
        i < 2,
    ensures
        r@ == v6_table()[i as int],
{
    match i {
        0 => "::1/128",
        _ => "fe80::/10",
    }
}

/// The mask of a prefix of `n` bits, as `ip_network` computes it.
pub open spec fn mask4(n: u8) -> u32 {
    if n == 0 {
        0
    } else {
        (!0u32) << ((32 - n) as u32)
    }
}

/// The mask of a prefix of `n` bits of an IPv6 address.
pub open spec fn mask6(n: u8) -> u128 {
    if n == 0 {
        0
    } else {
        (!0u128) << ((128 - n) as u128)
    }
}

/// Whether `ip` lies in the network `net` (its address and prefix length),
/// as `Ipv4Network::contains` decides: the masked address is the network's.
pub open spec fn in_network4(ip: u32, net: (u32, u8)) -> bool {
    ip & mask4(net.1) == net.0
}

/// Whether `ip` lies in the network `net`, as `Ipv6Network::contains` decides.
pub open spec fn in_network6(ip: u128, net: (u128, u8)) -> bool {
    ip & mask6(net.1) == net.0
}

/// Whether every IPv4 network of the table reads.
pub open spec fn v4_table_parses() -> bool {
    forall|i: int| 0 <= i < 5 ==> (#[trigger] ipv4_network_parse(v4_table()[i])) is Some
}

/// Whether every IPv6 network of the table reads.
pub open spec fn v6_table_parses() -> bool {
    forall|i: int| 0 <= i < 2 ==> (#[trigger] ipv6_network_parse(v6_table()[i])) is Some
}

/// Whether `ip` lies in one of the IPv4 networks of the table.
pub open spec fn spec_ipv4_unsafe(ip: u32) -> bool {
    exists|i: int| 0 <= i < 5 && in_network4(ip, (#[trigger] ipv4_network_parse(v4_table()[i]))->0)
}

/// Whether `ip` lies in one of the IPv6 networks of the table.
pub open spec fn spec_ipv6_unsafe(ip: u128) -> bool {
    exists|i: int| 0 <= i < 2 && in_network6(ip, (#[trigger] ipv6_network_parse(v6_table()[i]))->0)
}

/// Whether `ip_network` reads each IPv4 network of the table as its CIDR
/// text writes it: the dotted address as a 32-bit number, and the length of
/// the prefix.
pub open spec fn v4_table_reads_as_written() -> bool {
    &&& ipv4_network_parse("127.0.0.0/8"@) == Some((0x7F00_0000u32, 8u8))
    &&& ipv4_network_parse("10.0.0.0/8"@) == Some((0x0A00_0000u32, 8u8))
    &&& ipv4_network_parse("172.16.0.0/12"@) == Some((0xAC10_0000u32, 12u8))
    &&& ipv4_network_parse("192.168.0.0/16"@) == Some((0xC0A8_0000u32, 16u8))
    &&& ipv4_network_parse("100.64.0.0/10"@) == Some((0x6440_0000u32, 10u8))
}

/// Law: where `ip_network` reads the networks as written, an IPv4 address
/// is reported unsafe exactly when it lies in 127.0.0.0/8 (loopback),
/// 10.0.0.0/8, 172.16.0.0/12 or 192.168.0.0/16 (RFC 1918) or 100.64.0.0/10
/// (RFC 6598), each range given by its first and last address.
pub proof fn lemma_unsafe_v4_ranges(ip: u32)
    requires
        v4_table_reads_as_written(),
    ensures
        v4_table_parses(),
        spec_ipv4_unsafe(ip) <==> (0x7F00_0000 <= ip <= 0x7FFF_FFFF || 0x0A00_0000 <= ip <= 0x0AFF_FFFF
            || 0xAC10_0000 <= ip <= 0xAC1F_FFFF || 0xC0A8_0000 <= ip <= 0xC0A8_FFFF || 0x6440_0000
            <= ip <= 0x647F_FFFF),
{
    let t = v4_table();
    assert(t[0] == "127.0.0.0/8"@);
    assert(t[1] == "10.0.0.0/8"@);
    assert(t[2] == "172.16.0.0/12"@);
    assert(t[3] == "192.168.0.0/16"@);
    assert(t[4] == "100.64.0.0/10"@);
    assert(v4_table_parses()) by {
        assert forall|i: int| 0 <= i < 5 implies (#[trigger] ipv4_network_parse(v4_table()[i])) is Some by {
            if i == 0 {
            } else if i == 1 {
            } else if i == 2 {
            } else if i == 3 {
            } else {
            }
        }
    }
    assert(mask4(8u8) == (!0u32) << 24u32);
    assert(mask4(12u8) == (!0u32) << 20u32);
    assert(mask4(16u8) == (!0u32) << 16u32);
    assert(mask4(10u8) == (!0u32) << 22u32);
    assert((ip & ((!0u32) << 24u32) == 0x7F00_0000u32) <==> (0x7F00_0000u32 <= ip && ip <= 0x7FFF_FFFFu32))
        by (bit_vector);
    assert((ip & ((!0u32) << 24u32) == 0x0A00_0000u32) <==> (0x0A00_0000u32 <= ip && ip <= 0x0AFF_FFFFu32))
        by (bit_vector);
    assert((ip & ((!0u32) << 20u32) == 0xAC10_0000u32) <==> (0xAC10_0000u32 <= ip && ip <= 0xAC1F_FFFFu32))
        by (bit_vector);
    assert((ip & ((!0u32) << 16u32) == 0xC0A8_0000u32) <==> (0xC0A8_0000u32 <= ip && ip <= 0xC0A8_FFFFu32))
        by (bit_vector);
    assert((ip & ((!0u32) << 22u32) == 0x6440_0000u32) <==> (0x6440_0000u32 <= ip && ip <= 0x647F_FFFFu32))
        by (bit_vector);
    let n0 = ipv4_network_parse(t[0])->0;
    let n1 = ipv4_network_parse(t[1])->0;
    let n2 = ipv4_network_parse(t[2])->0;
    let n3 = ipv4_network_parse(t[3])->0;
    let n4 = ipv4_network_parse(t[4])->0;
    assert(in_network4(ip, n0) <==> 0x7F00_0000 <= ip <= 0x7FFF_FFFF);
    assert(in_network4(ip, n1) <==> 0x0A00_0000 <= ip <= 0x0AFF_FFFF);
    assert(in_network4(ip, n2) <==> 0xAC10_0000 <= ip <= 0xAC1F_FFFF);
    assert(in_network4(ip, n3) <==> 0xC0A8_0000 <= ip <= 0xC0A8_FFFF);
    assert(in_network4(ip, n4) <==> 0x6440_0000 <= ip <= 0x647F_FFFF);
    if spec_ipv4_unsafe(ip) {
        let i = choose|i: int|
            0 <= i < 5 && in_network4(ip, (#[trigger] ipv4_network_parse(v4_table()[i]))->0);
        assert(i == 0 || i == 1 || i == 2 || i == 3 || i == 4);
    }
}

/// Whether `ip_network` reads each IPv6 network of the table as its CIDR
/// text writes it: the address as a 128-bit number, and the length of the
/// prefix.
pub open spec fn v6_table_reads_as_written() -> bool {
    &&& ipv6_network_parse("::1/128"@) == Some((1u128, 128u8))
    &&& ipv6_network_parse("fe80::/10"@) == Some((0xfe80_0000_0000_0000_0000_0000_0000_0000u128, 10u8))
}

/// Law: where `ip_network` reads the networks as written, an IPv6 address
/// is reported unsafe exactly when it is the loopback address ::1 or lies in
/// the link-local network fe80::/10, given by its first and last address.
pub proof fn lemma_unsafe_v6_ranges(ip: u128)
    requires
        v6_table_reads_as_written(),
    ensures
        v6_table_parses(),
        spec_ipv6_unsafe(ip) <==> (ip == 1 || 0xfe80_0000_0000_0000_0000_0000_0000_0000 <= ip
            <= 0xfebf_ffff_ffff_ffff_ffff_ffff_ffff_ffff),
{
    let t = v6_table();
    assert(t[0] == "::1/128"@);
    assert(t[1] == "fe80::/10"@);
    assert(v6_table_parses()) by {
        assert forall|i: int| 0 <= i < 2 implies (#[trigger] ipv6_network_parse(v6_table()[i])) is Some by {
            if i == 0 {
            } else {
            }
        }
    }
    assert(mask6(128u8) == (!0u128) << 0u128);
    assert(mask6(10u8) == (!0u128) << 118u128);
    assert((ip & ((!0u128) << 0u128) == 1u128) <==> ip == 1u128) by (bit_vector);
    assert((ip & ((!0u128) << 118u128) == 0xfe80_0000_0000_0000_0000_0000_0000_0000u128) <==> (
    0xfe80_0000_0000_0000_0000_0000_0000_0000u128 <= ip && ip
        <= 0xfebf_ffff_ffff_ffff_ffff_ffff_ffff_ffffu128)) by (bit_vector);
    let n0 = ipv6_network_parse(t[0])->0;
    let n1 = ipv6_network_parse(t[1])->0;
    assert(in_network6(ip, n0) <==> ip == 1);
    assert(in_network6(ip, n1) <==> 0xfe80_0000_0000_0000_0000_0000_0000_0000 <= ip
        <= 0xfebf_ffff_ffff_ffff_ffff_ffff_ffff_ffff);
    if spec_ipv6_unsafe(ip) {
        let i = choose|i: int|
            0 <= i < 2 && in_network6(ip, (#[trigger] ipv6_network_parse(v6_table()[i]))->0);
        assert(i == 0 || i == 1);
    }
}

/// Whether `ip` lies in `net`.
fn network_contains4(net: (u32, u8), ip: u32) -> (r: bool)
    requires
        net.1 <= 32,
    ensures
        r == in_network4(ip, net),
{
    let mask: u32 = if net.1 == 0 {
        0
    } else {
        (!0u32) << ((32 - net.1) as u32)
    };
    ip & mask == net.0
}

/// Whether `ip` lies in `net`.
fn network_contains6(net: (u128, u8), ip: u128) -> (r: bool)
    requires
        net.1 <= 128,
    ensures
        r == in_network6(ip, net),
{
    let mask: u128 = if net.1 == 0 {
        0
    } else {
        (!0u128) << ((128 - net.1) as u128)
    };
    ip & mask == net.0
}

/// Whether every IPv4 network of the table reads.
pub fn v4_networks_parse() -> (r: bool)
    ensures
        r == v4_table_parses(),
{
    let mut i: usize = 0;
    while i < 5
        invariant
            0 <= i <= 5,
            forall|j: int| 0 <= j < i ==> (#[trigger] ipv4_network_parse(v4_table()[j])) is Some,
        decreases 5 - i,
    {
        if parse_ipv4_network(v4_entry(i)).is_none() {
            return false;
        }
        i = i + 1;
    }
    true
}

/// Whether every IPv6 network of the table reads.
pub fn v6_networks_parse() -> (r: bool)
    ensures
        r == v6_table_parses(),
{
    let mut i: usize = 0;
    while i < 2
        invariant
            0 <= i <= 2,
            forall|j: int| 0 <= j < i ==> (#[trigger] ipv6_network_parse(v6_table()[j])) is Some,
        decreases 2 - i,
    {
        if parse_ipv6_network(v6_entry(i)).is_none() {
            return false;
        }
        i = i + 1;
    }
    true
}

/// Whether the IPv4 address `ip` (its bits) lies in a loopback, private or
/// shared network.
pub fn is_ipv4_addr_safe(ip: u32) -> (r: bool)
    requires
        v4_table_parses(),
    ensures
        r == spec_ipv4_unsafe(ip),
{
    let mut i: usize = 0;
    while i < 5
        invariant
            0 <= i <= 5,
            v4_table_parses(),
            forall|j: int|
                0 <= j < i ==> !in_network4(ip, (#[trigger] ipv4_network_parse(v4_table()[j]))->0),
        decreases 5 - i,
    {
        let network = parse_ipv4_network(v4_entry(i)).unwrap();
        assert(ipv4_network_parse(v4_table()[i as int]) is Some);
        if network_contains4(network, ip) {
            return true;
        }
        i = i + 1;
    }
    false
}

/// Whether the IPv6 address `ip` (its bits) lies in the loopback or a
/// link-local network.
pub fn is_ipv6_addr_safe(ip: u128) -> (r: bool)
    requires
        v6_table_parses(),
    ensures
        r == spec_ipv6_unsafe(ip),
{
    let mut i: usize = 0;
    while i < 2
        invariant
            0 <= i <= 2,
            v6_table_parses(),
            forall|j: int|
                0 <= j < i ==> !in_network6(ip, (#[trigger] ipv6_network_parse(v6_table()[j]))->0),
        decreases 2 - i,
    {
        let network = parse_ipv6_network(v6_entry(i)).unwrap();
        assert(ipv6_network_parse(v6_table()[i as int]) is Some);
        if network_contains6(network, ip) {
            return true;
        }
        i = i + 1;
    }
    false
}

/// The bits of the address whose bytes, most significant first, are `b`.
pub open spec fn bits_of(b: Seq<u8>) -> nat
    decreases b.len(),
{
    if b.len() == 0 {
        0
    } else {
        bits_of(b.drop_last()) * 256 + b.last() as nat
    }
}

/// The bits of a four-byte address.
fn ipv4_bits(b: [u8; 4]) -> (r: u32)
    ensures
        r == bits_of(b@),
{
    let mut acc: u32 = 0;
    let mut i: usize = 0;
    while i < 4
        invariant
            0 <= i <= 4,
            acc == bits_of(b@.take(i as int)),
            acc < pow256(i as nat),
        decreases 4 - i,
    {
        proof {
            assert(b@.take(i + 1).drop_last() =~= b@.take(i as int));
            assert(pow256((i + 1) as nat) == pow256(i as nat) * 256);
            assert(acc * 256 + b@[i as int] < pow256(i as nat) * 256) by (nonlinear_arith)
                requires
                    acc < pow256(i as nat),
                    b@[i as int] < 256,
            ;
            assert(pow256(4) == 0x1_0000_0000) by {
                reveal_with_fuel(pow256, 5);
            }
            lemma_pow256_mono((i + 1) as nat, 4);
        }
        acc = acc * 256 + b[i] as u32;
        i = i + 1;
    }
    assert(b@.take(4) =~= b@);
    acc
}

/// The bits of a sixteen-byte address.
fn ipv6_bits(b: [u8; 16]) -> (r: u128)
    ensures
        r == bits_of(b@),
{
    let mut acc: u128 = 0;
    let mut i: usize = 0;
    while i < 16
        invariant
            0 <= i <= 16,
            acc == bits_of(b@.take(i as int)),
            acc < pow256(i as nat),
        decreases 16 - i,
    {
        proof {
            assert(b@.take(i + 1).drop_last() =~= b@.take(i as int));
            assert(pow256((i + 1) as nat) == pow256(i as nat) * 256);
            assert(acc * 256 + b@[i as int] < pow256(i as nat) * 256) by (nonlinear_arith)
                requires
                    acc < pow256(i as nat),
                    b@[i as int] < 256,
            ;
            assert(pow256(16) == 0x1_0000_0000_0000_0000_0000_0000_0000_0000) by {
                reveal_with_fuel(pow256, 17);
            }
            lemma_pow256_mono((i + 1) as nat, 16);
        }
        acc = acc * 256 + b[i] as u128;
        i = i + 1;
    }
    assert(b@.take(16) =~= b@);
    acc
}

/// `256^n`.
pub open spec fn pow256(n: nat) -> nat
    decreases n,
{
    if n == 0 {
        1
    } else {
        pow256((n - 1) as nat) * 256
    }
}

/// Powers of 256 grow with the exponent.
proof fn lemma_pow256_mono(a: nat, b: nat)
    requires
        a <= b,
    ensures
        pow256(a) <= pow256(b),
    decreases b - a,
{
    if a < b {
        lemma_pow256_mono(a, (b - 1) as nat);
    }
}

/// Whether `ip` lies in one of the unsafe networks of its family.
pub open spec fn spec_ip_unsafe(ip: IpAddress) -> bool {
    match ip {
        IpAddress::V4(b) => spec_ipv4_unsafe(bits_of(b@) as u32),
        IpAddress::V6(b) => spec_ipv6_unsafe(bits_of(b@) as u128),
    }
}

/// Whether `ip` lies in one of the unsafe networks of its family.
pub fn is_ip_addr_safe(ip: &IpAddress) -> (r: bool)
    requires
        v4_table_parses(),
        v6_table_parses(),
    ensures
        r == spec_ip_unsafe(*ip),
{
    match ip {
        IpAddress::V4(b) => is_ipv4_addr_safe(ipv4_bits(*b)),
        IpAddress::V6(b) => is_ipv6_addr_safe(ipv6_bits(*b)),
    }
}

/// Whether `ip` lies in one of the unsafe networks of its family, once the
/// tables of networks are read; `None` where a network of the tables does
/// not read.
pub fn checked_is_ip_addr_safe(ip: &IpAddress) -> (r: Option<bool>)
    ensures
        v4_table_parses() && v6_table_parses() ==> r == Some(spec_ip_unsafe(*ip)),
        !(v4_table_parses() && v6_table_parses()) ==> r is None,
{
    if v4_networks_parse() && v6_networks_parse() {
        Some(is_ip_addr_safe(ip))
    } else {
        None
    }
}

} // verus!
