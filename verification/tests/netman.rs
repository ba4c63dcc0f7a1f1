use yscloud::icmp6::{Icmp6FilterType, Icmp6FilterValue, ND_ROUTER_ADVERT, ND_ROUTER_SOLICIT};

#[test]
fn icmp_filter_ok() {
    let mut i6f = Icmp6FilterValue::block_all();
    i6f.set_pass(Icmp6FilterType(ND_ROUTER_SOLICIT));
    i6f.set_pass(Icmp6FilterType(ND_ROUTER_ADVERT));
    assert_eq!(i6f.0[0], 0xffff_ffff);
    assert_eq!(i6f.0[1], 0xffff_ffff);
    assert_eq!(i6f.0[2], 0xffff_ffff);
    assert_eq!(i6f.0[3], 0xffff_ffff);
    assert_eq!(i6f.0[4], 0x9fff_ffff);
    assert_eq!(i6f.0[5], 0xffff_ffff);
    assert_eq!(i6f.0[6], 0xffff_ffff);
    assert_eq!(i6f.0[7], 0xffff_ffff);
}

use yscloud::filter_bits::{clear_bit, filter_position};
use yscloud::ip::slaac_autoconfig_mac48;
use yscloud::netlink::{
    bring_up_link_header, interface_info_from_link, HardwareAddress, InterfaceBringUpRequest,
    LinkAttribute, ValidityPeriod,
};
use yscloud::netlink_address::{
    address_info_from_message, address_spec_to_address_message, AddressAttribute, AddressInfo,
    AddressSpec, IfaCacheInfo, IpAddress, AF_INET, AF_INET6,
};
use yscloud::advert::AdvertisementWrapped;
use yscloud::radvd::{read_byte_iter, RouterAdvertisementOption};
use yscloud::raw_radv;

const ADVERT1: &[u8] = &[
    134, 0, 105, 118, 64, 0, 0, 30, 0, 0, 0, 0, 0, 0, 0, 0, 3, 4, 64, 224, 0, 0, 1, 44, 0, 0,
    0, 180, 0, 0, 0, 0, 32, 1, 4, 112, 0, 11, 1, 233, 0, 0, 0, 0, 0, 0, 0, 0, 1, 1, 0, 80, 4,
    177, 173, 35,
];

const ADVERT2: &[u8] = &[
    134, 0, 215, 59, 64, 64, 0, 30, 0, 0, 0, 0, 0, 0, 0, 0, 3, 4, 64, 224, 0, 1, 81, 128, 0, 0,
    56, 64, 0, 0, 0, 0, 38, 4, 61, 9, 42, 127, 158, 1, 0, 0, 0, 0, 0, 0, 0, 0, 31, 5, 0, 0, 0,
    0, 0, 10, 7, 121, 121, 99, 45, 105, 110, 116, 17, 121, 97, 115, 97, 115, 104, 105, 105,
    115, 121, 110, 100, 105, 99, 97, 116, 101, 3, 111, 114, 103, 0, 0, 5, 1, 0, 0, 0, 0, 5,
    220, 1, 1, 0, 13, 185, 76, 238, 254,
];

const ADVERT3: &[u8] = &[
    134, 0, 66, 208, 64, 64, 0, 30, 0, 0, 0, 0, 0, 0, 0, 0, 3, 4, 64, 224, 0, 1, 81, 128, 0, 0,
    56, 64, 0, 0, 0, 0, 32, 1, 5, 106, 113, 181, 59, 1, 0, 0, 0, 0, 0, 0, 0, 0, 31, 5, 0, 0, 0,
    0, 0, 10, 7, 121, 121, 99, 45, 105, 110, 116, 17, 121, 97, 115, 97, 115, 104, 105, 105,
    115, 121, 110, 100, 105, 99, 97, 116, 101, 3, 111, 114, 103, 0, 0, 5, 1, 0, 0, 0, 0, 5,
    220, 1, 1, 0, 13, 185, 76, 229, 234,
];

#[test]
fn advert1_print() {
    let x = read_byte_iter(ADVERT1).unwrap();
    println!("{:#?}", x);
    assert_eq!(x.type_, 134);
    assert_eq!(x.checksum, 0x6976);
    assert_eq!(x.cur_hop_limit, 64);
    assert_eq!(x.router_lifetime, 30);
    assert_eq!(x.options.len(), 2);
    match &x.options[0] {
        RouterAdvertisementOption::PrefixInformation(p) => {
            assert_eq!(p.prefix_length, 64);
            assert_eq!(p.flags1, 0xe0);
            assert_eq!(p.valid_lifetime, 300);
            assert_eq!(p.preferred_lifetime, 180);
            assert_eq!(&p.prefix[..8], &[0x20, 0x01, 0x04, 0x70, 0x00, 0x0b, 0x01, 0xe9]);
        }
        other => panic!("unexpected {:?}", other),
    }
    match &x.options[1] {
        RouterAdvertisementOption::SourceLinkLayerAddress(a) => {
            assert_eq!(a.0, [0, 80, 4, 177, 173, 35]);
        }
        other => panic!("unexpected {:?}", other),
    }
}

#[test]
fn advert2_print() {
    let x = read_byte_iter(ADVERT2).unwrap();
    println!("{:#?}", x);
    assert_eq!(x.flags1, 64);
    assert_eq!(x.options.len(), 4);
    assert!(matches!(x.options[1], RouterAdvertisementOption::DnsSearchList(_)));
    match &x.options[2] {
        RouterAdvertisementOption::Mtu(m) => assert_eq!(m.mtu, 1500),
        other => panic!("unexpected {:?}", other),
    }
}

#[test]
fn advert3_print() {
    let x = read_byte_iter(ADVERT3).unwrap();
    println!("{:#?}", x);
    assert_eq!(x.checksum, 0x42d0);
    assert_eq!(x.options.len(), 4);
}

#[test]
fn advert_truncated_header() {
    assert!(read_byte_iter(&ADVERT1[..10]).is_err());
}

#[test]
fn advert_truncated_option() {
    // The source link-layer option loses its last byte.
    assert!(read_byte_iter(&ADVERT1[..ADVERT1.len() - 1]).is_err());
}

#[test]
fn raw_advert_flags_and_options() {
    let ra = raw_radv::RouterAdvertisement::from_bytes(ADVERT2).ok().unwrap();
    assert!(!ra.is_managed());
    assert!(ra.is_other_managed());
    let mut it = ra.options();
    match it.next() {
        Some(raw_radv::RouterAdvertisementOption::PrefixInformation(p)) => {
            assert_eq!(p.prefix_length, 64);
            assert_eq!(p.valid_lifetime, 86400);
            assert_eq!(p.preferred_lifetime, 14400);
            assert_eq!(p.prefix.0[0], 0x2604);
            assert_eq!(p.prefix.0[1], 0x3d09);
        }
        other => panic!("unexpected {:?}", other),
    }
    match it.next() {
        Some(raw_radv::RouterAdvertisementOption::DnsSearchList(s)) => assert_eq!(s.len(), 38),
        other => panic!("unexpected {:?}", other),
    }
    match it.next() {
        Some(raw_radv::RouterAdvertisementOption::Mtu(m)) => assert_eq!(m.value(), 1500),
        other => panic!("unexpected {:?}", other),
    }
    match it.next() {
        Some(raw_radv::RouterAdvertisementOption::SourceLinkLayerAddress(a)) => {
            assert_eq!(a.0, [0, 13, 185, 76, 238, 254])
        }
        other => panic!("unexpected {:?}", other),
    }
    assert!(it.next().is_none());
    assert!(raw_radv::RouterAdvertisement::from_bytes(&ADVERT2[..15]).is_err());
}

#[test]
fn slaac_from_mac() {
    let prefix: [u8; 16] = [0x20, 0x01, 0x0d, 0xb8, 0, 0, 0, 1, 9, 9, 9, 9, 9, 9, 9, 9];
    let mac = [0x00, 0x50, 0x04, 0xb1, 0xad, 0x23];
    let addr = slaac_autoconfig_mac48(&mac, &prefix);
    assert_eq!(
        addr,
        [0x20, 0x01, 0x0d, 0xb8, 0, 0, 0, 1, 0x02, 0x50, 0x04, 0xff, 0xfe, 0xb1, 0xad, 0x23]
    );
}

#[test]
fn filter_positions() {
    assert_eq!(filter_position(0), (0, 24));
    assert_eq!(filter_position(133), (4, 29));
    assert_eq!(filter_position(134), (4, 30));
    assert_eq!(filter_position(255), (7, 7));
    assert_eq!(clear_bit(0xffff_ffff, 31), 0x7fff_ffff);
    assert_eq!(clear_bit(0x1, 0), 0);
}

#[test]
fn link_attributes_last_wins() {
    let attrs = vec![
        LinkAttribute::IfName("eth0".to_string()),
        LinkAttribute::Address(vec![1, 2, 3, 4, 5, 6]),
        LinkAttribute::Other,
        LinkAttribute::IfName("eth1".to_string()),
    ];
    let info = interface_info_from_link(7, &attrs);
    assert_eq!(info.index, 7);
    assert_eq!(info.name, "eth1");
    assert_eq!(info.address.as_slice(), &[1, 2, 3, 4, 5, 6]);
    assert_eq!(HardwareAddress::from_slice(&[9, 8]).length, 2);
}

#[test]
fn bring_up_header() {
    let h = bring_up_link_header(&InterfaceBringUpRequest { interface_index: 3 });
    assert_eq!(h.index, 3);
    assert_eq!(h.flags, 1);
    assert_eq!(h.change_mask, 1);
    assert_eq!(h.interface_family, 0);
}

#[test]
fn validity_periods() {
    assert!(ValidityPeriod(0xffff_ffff).is_infinite());
    assert_eq!(ValidityPeriod(0xffff_ffff).to_display_string(), "forever");
    assert_eq!(ValidityPeriod(90).to_display_string(), "90s");
    assert_eq!(ValidityPeriod(90).as_duration(), std::time::Duration::new(90, 0));
    assert_eq!(ValidityPeriod(0xffff_ffff).as_duration(), std::time::Duration::new(u64::MAX, 0));
}

#[test]
fn address_messages() {
    let spec = AddressSpec { iface_index: 2, address: IpAddress::V4([10, 0, 0, 1]), prefix_len: 24 };
    let m = address_spec_to_address_message(&spec);
    assert_eq!(m.family, AF_INET);
    assert_eq!(m.prefix_len, 24);
    assert_eq!(m.index, 2);
    assert_eq!(m.local, vec![10, 0, 0, 1]);
    assert_eq!(m.address, vec![10, 0, 0, 1]);
    let spec6 = AddressSpec { iface_index: 2, address: IpAddress::V6([0xfe; 16]), prefix_len: 64 };
    assert_eq!(address_spec_to_address_message(&spec6).family, AF_INET6);
}

#[test]
fn address_from_message() {
    let mut cache = vec![0u8; 16];
    cache[0..4].copy_from_slice(&100u32.to_le_bytes());
    cache[4..8].copy_from_slice(&0xffff_ffffu32.to_le_bytes());
    let attrs = vec![
        AddressAttribute::Address(vec![192, 168, 1, 5]),
        AddressAttribute::CacheInfo(cache),
    ];
    let info = address_info_from_message(4, &attrs, 1000).unwrap();
    assert_eq!(info.interface_index, 4);
    assert_eq!(info.address, IpAddress::V4([192, 168, 1, 5]));
    assert_eq!(info.preferred_until, Some(1100));
    assert_eq!(info.valid_until, None);

    let odd = vec![AddressAttribute::Address(vec![1, 2, 3])];
    assert!(address_info_from_message(4, &odd, 1000).is_none());

    let mut rec = AddressInfo {
        interface_index: 1,
        address: IpAddress::V4([1, 1, 1, 1]),
        preferred_until: None,
        valid_until: None,
    };
    let ci = IfaCacheInfo::copy_from_slice(&[5, 0, 0, 0, 6, 0, 0, 0, 0, 0, 0, 0, 0, 0, 0, 0]);
    ci.add_cache_information(&mut rec, 10);
    assert_eq!(rec.preferred_until, Some(15));
    assert_eq!(rec.valid_until, Some(16));
}

fn wrapped(flags1: u8, options: Vec<RouterAdvertisementOption>) -> AdvertisementWrapped {
    let mut adv = read_byte_iter(ADVERT1).unwrap();
    adv.flags1 = flags1;
    adv.options = options;
    AdvertisementWrapped {
        capture_instant: 5_000,
        source_address: [0xfe, 0x80, 0, 0, 0, 0, 0, 0, 0, 0, 0, 0, 0, 0, 0, 1],
        target_address: [0xff, 0x02, 0, 0, 0, 0, 0, 0, 0, 0, 0, 0, 0, 0, 0, 1],
        interface_index: 2,
        advertisement: adv,
    }
}

#[test]
fn advertisement_flags() {
    let managed = wrapped(0x80, Vec::new());
    assert!(managed.is_managed());
    assert!(managed.has_supplemental_configuration());
    assert!(!managed.slaac_only());
    let other = wrapped(0x40, Vec::new());
    assert!(!other.is_managed());
    assert!(other.has_supplemental_configuration());
    assert!(!other.slaac_only());
    let plain = wrapped(0x3f, Vec::new());
    assert!(!plain.is_managed());
    assert!(!plain.has_supplemental_configuration());
    assert!(plain.slaac_only());
}

#[test]
fn advertisement_prefix_lifetimes() {
    let parsed = read_byte_iter(ADVERT1).unwrap();
    let w = AdvertisementWrapped {
        capture_instant: 1_000,
        source_address: [0; 16],
        target_address: [0; 16],
        interface_index: 3,
        advertisement: parsed,
    };
    let p = w.prefix_information().unwrap();
    assert_eq!(p.prefix_length, 64);
    assert_eq!(p.valid_lifetime, 300);
    assert_eq!(p.preferred_lifetime, 180);
    assert_eq!(&p.prefix[..4], &[0x20, 0x01, 0x04, 0x70]);
    assert_eq!(w.valid_until(), Some(301_000));
    assert_eq!(w.preferred_until(), Some(181_000));
    let none = wrapped(0, Vec::new());
    assert!(none.prefix_information().is_none());
    assert_eq!(none.valid_until(), None);
    assert_eq!(none.preferred_until(), None);
}
