use bgp_nlri::Afi;
use bgp_nlri::IpAddress;
use bgp_nlri::IpNetwork;
use bgp_nlri::MpReachableNlri;
use bgp_nlri::MpUnreachableNlri;
use bgp_nlri::NetworkPrefix;
use bgp_nlri::NextHopAddress;
use bgp_nlri::Nlri;
use bgp_nlri::Safi;

#[test]
fn nlri_is_ipv4() {
    let nlri = Nlri::new_reachable(
        NetworkPrefix::from_str("10.0.2.0/24").unwrap(),
        Some(IpAddress::v4_from_octets(10, 0, 2, 1)),
    );

    assert!(nlri.is_ipv4());
}

#[test]
fn nlri_is_ipv6() {
    let nlri = Nlri::new_unreachable(NetworkPrefix::from_str("2001:db8::/32").unwrap());

    assert!(nlri.is_ipv6());
}

#[test]
fn nlri_is_reachable() {
    let nlri = Nlri::new_reachable(
        NetworkPrefix::from_str("10.0.2.0/24").unwrap(),
        Some(IpAddress::v4_from_octets(10, 0, 2, 1)),
    );

    assert!(nlri.is_reachable());
}

#[test]
#[should_panic]
fn nlri_next_hop_addr_unreachable() {
    let nlri = Nlri::new_unreachable(NetworkPrefix::from_str("10.0.2.0/24").unwrap());

    let _ = nlri.next_hop_addr();
}

#[test]
fn mp_reachable_nlri_new() {
    let next_hop_addr = IpAddress::v4_from_octets(10, 0, 2, 1);
    let nlri = MpReachableNlri::new(
        Afi::Ipv4,
        Safi::Unicast,
        NextHopAddress::from(next_hop_addr),
        vec![NetworkPrefix::from_str("10.0.2.0/24").unwrap()],
    );

    assert_eq!(nlri.afi(), Afi::Ipv4);
    assert_eq!(nlri.safi(), Safi::Unicast);
    assert_eq!(nlri.next_hop().addr(), next_hop_addr);
    assert_eq!(nlri.prefixes().len(), 1);
}

#[test]
fn mp_unreachable_nlri_new() {
    let nlri = MpUnreachableNlri::new(
        Afi::Ipv4,
        Safi::Unicast,
        vec![NetworkPrefix::from_str("10.0.2.0/24").unwrap()],
    );

    assert_eq!(nlri.afi(), Afi::Ipv4);
    assert_eq!(nlri.safi(), Safi::Unicast);
    assert_eq!(nlri.prefixes().len(), 1);
}

#[test]
fn reachable_scenario_v4() {
    let nlri = Nlri::new_reachable(
        NetworkPrefix::from_str("10.0.2.0/24").unwrap(),
        Some(IpAddress::v4_from_octets(10, 0, 2, 1)),
    );

    assert!(nlri.is_ipv4());
    assert!(!nlri.is_ipv6());
    assert!(nlri.is_reachable());
    assert_eq!(nlri.next_hop_addr(), IpAddress::V4(167772673));
}

#[test]
fn unreachable_scenario_v6() {
    let nlri = Nlri::new_unreachable(NetworkPrefix::from_str("2001:db8::/32").unwrap());

    assert!(nlri.is_ipv6());
    assert!(!nlri.is_ipv4());
    assert!(!nlri.is_reachable());
}

#[test]
fn afi_derived_from_prefix_not_next_hop() {
    // The family comes from the prefix even when the next hop belongs to the
    // other family.
    let v6_prefix = NetworkPrefix::from_str("2001:db8::/32").unwrap();
    let v4_next_hop = IpAddress::v4_from_octets(10, 0, 2, 1);
    let nlri = Nlri::new_reachable(v6_prefix, Some(v4_next_hop));
    assert_eq!(nlri.afi, Afi::Ipv6);

    let v4_prefix = NetworkPrefix::from_str("192.168.0.0/16").unwrap();
    let nlri = Nlri::new_reachable(v4_prefix, None);
    assert_eq!(nlri.afi, Afi::Ipv4);

    let nlri = Nlri::new_unreachable(v4_prefix);
    assert_eq!(nlri.afi, Afi::Ipv4);
}

#[test]
fn reachable_with_absent_next_hop_is_unreachable() {
    let nlri = Nlri::new_reachable(NetworkPrefix::from_str("10.0.2.0/24").unwrap(), None);

    assert!(!nlri.is_reachable());
    assert_eq!(nlri.next_hop, None);
    assert_eq!(nlri.safi, Safi::Unicast);
}

#[test]
fn iteration_yields_networks_in_order() {
    let a = NetworkPrefix::from_str("10.0.2.0/24").unwrap();
    let b = NetworkPrefix::from_str("192.168.0.0/16").unwrap();
    let c = NetworkPrefix::from_str("2001:db8::/32").unwrap();
    let nlri = Nlri {
        afi: Afi::Ipv4,
        safi: Safi::Unicast,
        next_hop: None,
        prefixes: vec![a, b, c],
    };

    let expected = vec![
        IpNetwork::V4 { addr: 167772672, len: 24 },
        IpNetwork::V4 { addr: 3232235520, len: 16 },
        IpNetwork::V6 { addr: 0x2001_0db8_0000_0000_0000_0000_0000_0000, len: 32 },
    ];
    let borrowed = nlri.networks();
    assert_eq!(borrowed.len(), nlri.prefixes.len());
    assert_eq!(borrowed, expected);

    let consumed = nlri.into_networks();
    assert_eq!(consumed, expected);
}

#[test]
fn next_hop_global_takes_precedence_over_link_local() {
    let global: u128 = 0x2001_0db8_0000_0000_0000_0000_0000_0001;
    let link_local: u128 = 0xfe80_0000_0000_0000_0000_0000_0000_0001;
    let nh = NextHopAddress::Ipv6LinkLocal(global, link_local);

    assert_eq!(nh.addr(), IpAddress::V6(global));
    assert_eq!(NextHopAddress::Ipv6(global).addr(), IpAddress::V6(global));
    assert_eq!(NextHopAddress::Ipv4(167772673).addr(), IpAddress::V4(167772673));
}

#[test]
fn next_hop_from_plain_address() {
    assert_eq!(
        NextHopAddress::from(IpAddress::V4(167772673)),
        NextHopAddress::Ipv4(167772673)
    );
    assert_eq!(
        NextHopAddress::from(IpAddress::V6(1)),
        NextHopAddress::Ipv6(1)
    );
}

#[test]
fn mp_reachable_stores_fields_verbatim() {
    let prefixes = vec![
        NetworkPrefix::from_str("2001:db8::/32").unwrap(),
        NetworkPrefix::from_str("2001:db8:1::/48").unwrap(),
    ];
    let nh = NextHopAddress::Ipv6LinkLocal(
        0x2001_0db8_0000_0000_0000_0000_0000_0001,
        0xfe80_0000_0000_0000_0000_0000_0000_0001,
    );
    let nlri = MpReachableNlri::new(Afi::Ipv6, Safi::Multicast, nh, prefixes.clone());

    assert_eq!(nlri.afi(), Afi::Ipv6);
    assert_eq!(nlri.safi(), Safi::Multicast);
    assert_eq!(nlri.next_hop(), nh);
    assert_eq!(nlri.prefixes(), &prefixes);
}

#[test]
fn mp_unreachable_permits_empty_prefix_list() {
    // The prefix collection is not structurally required to be non-empty;
    // this documents the permissive behavior.
    let nlri = MpUnreachableNlri::new(Afi::Ipv6, Safi::Unicast, vec![]);

    assert_eq!(nlri.afi(), Afi::Ipv6);
    assert_eq!(nlri.prefixes().len(), 0);
}
