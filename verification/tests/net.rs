use bgp_nlri::Afi;
use bgp_nlri::IpAddress;
use bgp_nlri::IpNetwork;
use bgp_nlri::NetworkPrefix;

#[test]
fn v4_from_octets_builds_the_numeric_address() {
    assert_eq!(IpAddress::v4_from_octets(10, 0, 2, 1), IpAddress::V4(167772673));
    assert_eq!(IpAddress::v4_from_octets(0, 0, 0, 0), IpAddress::V4(0));
    assert_eq!(
        IpAddress::v4_from_octets(255, 255, 255, 255),
        IpAddress::V4(u32::MAX)
    );
}

#[test]
fn from_str_parses_v4_network_text() {
    let p = NetworkPrefix::from_str("10.0.2.0/24").unwrap();
    assert_eq!(p.network(), IpNetwork::V4 { addr: 167772672, len: 24 });
    assert_eq!(p.afi(), Afi::Ipv4);
}

#[test]
fn from_str_parses_v6_network_text() {
    let p = NetworkPrefix::from_str("2001:db8::/32").unwrap();
    assert_eq!(
        p.network(),
        IpNetwork::V6 { addr: 0x2001_0db8_0000_0000_0000_0000_0000_0000, len: 32 }
    );
    assert_eq!(p.afi(), Afi::Ipv6);
}

#[test]
fn from_str_rejects_malformed_text() {
    assert_eq!(NetworkPrefix::from_str(""), None);
    assert_eq!(NetworkPrefix::from_str("not a prefix"), None);
    // A bare address without a length is not a network.
    assert_eq!(NetworkPrefix::from_str("10.0.2.0"), None);
    // A prefix length beyond the address width is rejected.
    assert_eq!(NetworkPrefix::from_str("10.0.2.0/33"), None);
    assert_eq!(NetworkPrefix::from_str("2001:db8::/129"), None);
}

#[test]
fn new_validates_the_prefix_length() {
    let good = IpNetwork::V4 { addr: 167772672, len: 32 };
    let p = NetworkPrefix::new(good).unwrap();
    assert_eq!(p.network(), good);

    assert_eq!(NetworkPrefix::new(IpNetwork::V4 { addr: 167772672, len: 33 }), None);
    assert!(NetworkPrefix::new(IpNetwork::V6 { addr: 1, len: 128 }).is_some());
    assert_eq!(NetworkPrefix::new(IpNetwork::V6 { addr: 1, len: 129 }), None);
}
