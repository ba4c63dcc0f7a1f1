use yscloud::cloudsafe::{
    checked_is_ip_addr_safe, is_ip_addr_safe, is_ipv4_addr_safe, is_ipv6_addr_safe,
    v4_networks_parse, v6_networks_parse,
};
use yscloud::netlink_address::IpAddress;

#[test]
fn network_tables_read() {
    assert!(v4_networks_parse());
    assert!(v6_networks_parse());
}

#[test]
fn ipv4_ranges() {
    assert!(is_ipv4_addr_safe(0x7f00_0001));
    assert!(is_ipv4_addr_safe(0x0a01_0203));
    assert!(is_ipv4_addr_safe(0xac10_0504));
    assert!(!is_ipv4_addr_safe(0xac20_0001));
    assert!(is_ipv4_addr_safe(0xc0a8_0101));
    assert!(is_ipv4_addr_safe(0x6440_0001));
    assert!(!is_ipv4_addr_safe(0x6480_0001));
    assert!(!is_ipv4_addr_safe(0x0808_0808));
}

#[test]
fn ipv6_ranges() {
    assert!(is_ipv6_addr_safe(1));
    assert!(is_ipv6_addr_safe(0xfe80_0000_0000_0000_0000_0000_0000_0001));
    assert!(is_ipv6_addr_safe(0xfebf_0000_0000_0000_0000_0000_0000_0001));
    assert!(!is_ipv6_addr_safe(0xfec0_0000_0000_0000_0000_0000_0000_0001));
    assert!(!is_ipv6_addr_safe(0x2001_0db8_0000_0000_0000_0000_0000_0001));
    assert!(!is_ipv6_addr_safe(0));
}

#[test]
fn addresses_by_family() {
    assert_eq!(checked_is_ip_addr_safe(&IpAddress::V4([127, 0, 0, 1])), Some(true));
    assert_eq!(checked_is_ip_addr_safe(&IpAddress::V4([8, 8, 4, 4])), Some(false));
    assert!(is_ip_addr_safe(&IpAddress::V4([192, 168, 10, 20])));
    let mut v6 = [0u8; 16];
    v6[15] = 1;
    assert!(is_ip_addr_safe(&IpAddress::V6(v6)));
    v6[0] = 0x20;
    v6[1] = 0x01;
    assert_eq!(checked_is_ip_addr_safe(&IpAddress::V6(v6)), Some(false));
}
