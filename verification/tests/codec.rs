use bgp_nlri::Afi;
use bgp_nlri::IpAddress;
use bgp_nlri::MpReachableNlri;
use bgp_nlri::MpUnreachableNlri;
use bgp_nlri::NetworkPrefix;
use bgp_nlri::NextHopAddress;
use bgp_nlri::Nlri;
use bgp_nlri::Safi;
use bgp_nlri::codec::decode_mp_reachable;
use bgp_nlri::codec::decode_mp_unreachable;
use bgp_nlri::codec::decode_nlri;
use bgp_nlri::codec::encode_mp_reachable;
use bgp_nlri::codec::encode_mp_unreachable;
use bgp_nlri::codec::encode_nlri;

#[test]
fn nlri_round_trip_reachable_v4() {
    let nlri = Nlri::new_reachable(
        NetworkPrefix::from_str("10.0.2.0/24").unwrap(),
        Some(IpAddress::v4_from_octets(10, 0, 2, 1)),
    );

    let words = encode_nlri(&nlri);
    assert_eq!(decode_nlri(&words), Some(nlri));
}

#[test]
fn nlri_round_trip_unreachable_v6() {
    let nlri = Nlri::new_unreachable(NetworkPrefix::from_str("2001:db8::/32").unwrap());

    let words = encode_nlri(&nlri);
    assert_eq!(decode_nlri(&words), Some(nlri));
}

#[test]
fn nlri_round_trip_many_prefixes() {
    let nlri = Nlri {
        afi: Afi::Ipv4,
        safi: Safi::Unicast,
        next_hop: Some(NextHopAddress::Ipv4(167772673)),
        prefixes: vec![
            NetworkPrefix::from_str("10.0.2.0/24").unwrap(),
            NetworkPrefix::from_str("192.168.0.0/16").unwrap(),
            NetworkPrefix::from_str("0.0.0.0/0").unwrap(),
        ],
    };

    let words = encode_nlri(&nlri);
    assert_eq!(decode_nlri(&words), Some(nlri));
}

#[test]
fn nlri_round_trip_empty_prefix_list() {
    // Nothing requires a non-empty collection; the encoding keeps that.
    let nlri = Nlri { afi: Afi::Ipv6, safi: Safi::Unicast, next_hop: None, prefixes: vec![] };

    let words = encode_nlri(&nlri);
    assert_eq!(decode_nlri(&words), Some(nlri));
}

#[test]
fn mp_reachable_round_trip_with_link_local_pair() {
    let nlri = MpReachableNlri::new(
        Afi::Ipv6,
        Safi::UnicastMulticast,
        NextHopAddress::Ipv6LinkLocal(
            0x2001_0db8_0000_0000_0000_0000_0000_0001,
            0xfe80_0000_0000_0000_0000_0000_0000_0001,
        ),
        vec![
            NetworkPrefix::from_str("2001:db8::/32").unwrap(),
            NetworkPrefix::from_str("2001:db8:1::/48").unwrap(),
        ],
    );

    let words = encode_mp_reachable(&nlri);
    assert_eq!(decode_mp_reachable(&words), Some(nlri));
}

#[test]
fn mp_unreachable_round_trip() {
    let nlri = MpUnreachableNlri::new(
        Afi::Ipv4,
        Safi::Multicast,
        vec![NetworkPrefix::from_str("10.0.2.0/24").unwrap()],
    );

    let words = encode_mp_unreachable(&nlri);
    assert_eq!(decode_mp_unreachable(&words), Some(nlri));
}

#[test]
fn decode_rejects_malformed_words() {
    // Too short to hold a record at all.
    assert_eq!(decode_nlri(&vec![]), None);
    assert_eq!(decode_nlri(&vec![1]), None);
    // An unknown family or sub-family word.
    assert_eq!(decode_nlri(&vec![9, 1, 0, 0]), None);
    assert_eq!(decode_nlri(&vec![1, 9, 0, 0]), None);
    // A count that promises more prefixes than the words hold.
    assert_eq!(decode_nlri(&vec![1, 1, 0, 5]), None);
    // A prefix length beyond the address width.
    assert_eq!(decode_nlri(&vec![1, 1, 0, 1, 1, 167772672, 33]), None);
}

#[test]
fn decode_rejects_truncated_or_padded_encodings() {
    let nlri = Nlri::new_reachable(
        NetworkPrefix::from_str("10.0.2.0/24").unwrap(),
        Some(IpAddress::v4_from_octets(10, 0, 2, 1)),
    );
    let words = encode_nlri(&nlri);

    let mut truncated = words.clone();
    truncated.pop();
    assert_eq!(decode_nlri(&truncated), None);

    let mut padded = words.clone();
    padded.push(0);
    assert_eq!(decode_nlri(&padded), None);

    assert_eq!(decode_mp_reachable(&vec![1, 1]), None);
    assert_eq!(decode_mp_unreachable(&vec![1, 1]), None);
    assert_eq!(decode_mp_unreachable(&vec![1, 1, 2, 1, 167772672, 24]), None);
}
