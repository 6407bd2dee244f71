use ipv4net::cidr::Cidr;
use ipv4net::cidr_error::CidrError;
use ipv4net::ipv4::IPv4;
use ipv4net::ipv4_error::Ipv4Error;
use ipv4net::ipv4_mask::IPv4Mask;
use ipv4net::ipv4_mask_error::IPv4MaskError;

#[test]
fn bytes_octet_round_trip() {
    let samples: Vec<[u8; 4]> = vec![
        [0, 0, 0, 0],
        [255, 255, 255, 255],
        [192, 168, 10, 102],
        [1, 2, 3, 4],
        [0, 255, 0, 255],
    ];
    for bytes in samples {
        let addr = IPv4::try_from_bytes(&bytes).unwrap();
        for i in 0..4usize {
            assert_eq!(addr.fragment(i).unwrap(), bytes[i]);
        }
    }
}

#[test]
fn parse_format_round_trip() {
    let samples = vec![
        "0.0.0.0",
        "255.255.255.255",
        "192.168.10.102",
        "1.2.3.4",
        "10.0.200.9",
    ];
    for text in samples {
        let addr = IPv4::try_from_str(text).unwrap();
        assert_eq!(addr.format(), text);
    }
}

#[test]
fn format_parse_round_trip() {
    let samples: Vec<u32> = vec![0, 1, 0xC0_A8_0A_66, 0xFFFF_FFFF, 0x7F_00_00_01];
    for value in samples {
        let addr = IPv4::from(value);
        let back = IPv4::try_from_str(addr.format().as_str()).unwrap();
        assert_eq!(back.to_u32(), value);
    }
}

#[test]
fn mask_duality_all_prefixes() {
    for p in 1u8..=32 {
        let mask = IPv4Mask::new(p).unwrap();
        let back = IPv4Mask::try_from(mask.mask_address()).unwrap();
        assert_eq!(back.cidr(), p);
    }
}

#[test]
fn mask_monotonic_pairs() {
    for p1 in 1u8..=32 {
        for p2 in (p1 + 1)..=32 {
            let bits1 = IPv4Mask::new(p1).unwrap().mask_address().to_u32();
            let bits2 = IPv4Mask::new(p2).unwrap().mask_address().to_u32();
            assert_eq!(bits1 & bits2, bits1);
        }
    }
}

#[test]
fn block_contains_its_endpoints() {
    let block = Cidr::new(
        IPv4::try_from_str("10.20.64.0").unwrap(),
        IPv4Mask::new(18).unwrap(),
    )
    .unwrap();

    assert!(block.contains(block.address()));
    assert!(block.contains(&block.broadcast_address()));

    let samples = vec!["10.20.64.1", "10.20.100.200", "10.20.127.255", "10.21.0.0", "10.20.128.0"];
    for text in samples {
        let addr = IPv4::try_from_str(text).unwrap();
        let network = block.subnet_mask().network_address(&addr);
        assert_eq!(block.contains(&addr), network == *block.address());
    }
}

#[test]
fn parse_boundary_values() {
    if let Err(e) = IPv4::try_from_str("192.168.10.256") {
        assert_eq!(e, Ipv4Error::InvalidValue);
    } else {
        unreachable!()
    }
    if let Err(e) = IPv4::try_from_str("192.168.10") {
        assert_eq!(e, Ipv4Error::InvalidFormat);
    } else {
        unreachable!()
    }
    if let Err(e) = IPv4Mask::new(0) {
        assert_eq!(e, IPv4MaskError::CidrOutOfRange);
    } else {
        unreachable!()
    }
    if let Err(e) = IPv4Mask::new(33) {
        assert_eq!(e, IPv4MaskError::CidrOutOfRange);
    } else {
        unreachable!()
    }
}

#[test]
fn parse_odd_component_shapes() {
    // A leading plus sign and leading zeros are accepted per component,
    // as an unsigned integer parse accepts them.
    let plus = IPv4::try_from_str("+192.168.+10.102").unwrap();
    assert_eq!(plus.to_u32(), 0xC0_A8_0A_66);

    let zeros = IPv4::try_from_str("010.001.000.009").unwrap();
    assert_eq!(zeros.format(), "10.1.0.9");

    // Empty components fail as values, not as shape: splitting keeps
    // the empty pieces around each dot.
    if let Err(e) = IPv4::try_from_str("") {
        assert_eq!(e, Ipv4Error::InvalidValue);
    } else {
        unreachable!()
    }
    if let Err(e) = IPv4::try_from_str("1..2.3") {
        assert_eq!(e, Ipv4Error::InvalidValue);
    } else {
        unreachable!()
    }

    // A trailing dot makes a fifth (empty) component: a shape failure,
    // found only after the first four parse.
    if let Err(e) = IPv4::try_from_str("1.2.3.4.") {
        assert_eq!(e, Ipv4Error::InvalidFormat);
    } else {
        unreachable!()
    }
    if let Err(e) = IPv4::try_from_str("1.x.3.4.") {
        assert_eq!(e, Ipv4Error::InvalidValue);
    } else {
        unreachable!()
    }
}

#[test]
fn format_extreme_addresses() {
    assert_eq!(IPv4::from(0).format(), "0.0.0.0");
    assert_eq!(IPv4::from(0xFFFF_FFFF).format(), "255.255.255.255");
    assert_eq!(IPv4::from(0x01_00_00_00).format(), "1.0.0.0");
}

#[test]
fn scenario_block_of_24() {
    let block = Cidr::new(
        IPv4::try_from_str("192.168.10.0").unwrap(),
        IPv4Mask::new(24).unwrap(),
    )
    .unwrap();

    assert_eq!(block.format(), "192.168.10.0/24");
    assert!(block.contains(&IPv4::try_from_str("192.168.10.120").unwrap()));
    assert!(!block.contains(&IPv4::try_from_str("192.168.11.120").unwrap()));
}

#[test]
fn scenario_unaligned_block_fails() {
    let result = Cidr::new(
        IPv4::try_from_str("192.168.10.1").unwrap(),
        IPv4Mask::new(24).unwrap(),
    );
    if let Err(e) = result {
        assert_eq!(e, CidrError::InvalidAddressOrMask);
    } else {
        unreachable!()
    }
}

#[test]
fn scenario_range_of_20() {
    let block = Cidr::new(
        IPv4::try_from_str("192.168.112.0").unwrap(),
        IPv4Mask::new(20).unwrap(),
    )
    .unwrap();

    let range = block.network_range();
    assert_eq!(range.begin().format(), "192.168.112.0");
    assert_eq!(range.end().format(), "192.168.127.255");
}

#[test]
fn scenario_non_contiguous_mask_fails() {
    let result = IPv4Mask::try_from(&IPv4::try_from_str("128.1.0.1").unwrap());
    if let Err(e) = result {
        assert_eq!(e, IPv4MaskError::InvalidSubnetMask);
    } else {
        unreachable!()
    }
}

#[test]
fn mask_format_all_prefixes() {
    for p in 1u8..=32 {
        let mask = IPv4Mask::new(p).unwrap();
        assert_eq!(mask.format(), format!("/{}", p));
    }
}
