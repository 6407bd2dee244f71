use ipv4net::ipv4::IPv4;
use ipv4net::ipv4_mask::IPv4Mask;
use ipv4net::ipv4_mask_error::IPv4MaskError;

fn mask_table() -> Vec<IPv4> {
    vec![
        IPv4::try_from_str("128.0.0.0").unwrap(),
        IPv4::try_from_str("192.0.0.0").unwrap(),
        IPv4::try_from_str("224.0.0.0").unwrap(),
        IPv4::try_from_str("240.0.0.0").unwrap(),
        IPv4::try_from_str("248.0.0.0").unwrap(),
        IPv4::try_from_str("252.0.0.0").unwrap(),
        IPv4::try_from_str("254.0.0.0").unwrap(),
        IPv4::try_from_str("255.0.0.0").unwrap(),
        IPv4::try_from_str("255.128.0.0").unwrap(),
        IPv4::try_from_str("255.192.0.0").unwrap(),
        IPv4::try_from_str("255.224.0.0").unwrap(),
        IPv4::try_from_str("255.240.0.0").unwrap(),
        IPv4::try_from_str("255.248.0.0").unwrap(),
        IPv4::try_from_str("255.252.0.0").unwrap(),
        IPv4::try_from_str("255.254.0.0").unwrap(),
        IPv4::try_from_str("255.255.0.0").unwrap(),
        IPv4::try_from_str("255.255.128.0").unwrap(),
        IPv4::try_from_str("255.255.192.0").unwrap(),
        IPv4::try_from_str("255.255.224.0").unwrap(),
        IPv4::try_from_str("255.255.240.0").unwrap(),
        IPv4::try_from_str("255.255.248.0").unwrap(),
        IPv4::try_from_str("255.255.252.0").unwrap(),
        IPv4::try_from_str("255.255.254.0").unwrap(),
        IPv4::try_from_str("255.255.255.0").unwrap(),
        IPv4::try_from_str("255.255.255.128").unwrap(),
        IPv4::try_from_str("255.255.255.192").unwrap(),
        IPv4::try_from_str("255.255.255.224").unwrap(),
        IPv4::try_from_str("255.255.255.240").unwrap(),
        IPv4::try_from_str("255.255.255.248").unwrap(),
        IPv4::try_from_str("255.255.255.252").unwrap(),
        IPv4::try_from_str("255.255.255.254").unwrap(),
        IPv4::try_from_str("255.255.255.255").unwrap(),
    ]
}

fn assert_mask_error<T>(actual: Result<T, IPv4MaskError>, expected: IPv4MaskError) {
    if let Err(err) = actual {
        assert_eq!(err, expected)
    } else {
        unreachable!()
    }
}

#[test]
fn ipv4_mask_new_test() {
    for i in 1..=32 {
        let actual = IPv4Mask::new(i);
        assert!(actual.is_ok());
        assert_eq!(actual.unwrap().cidr(), i);
    }

    assert_mask_error(IPv4Mask::new(33), IPv4MaskError::CidrOutOfRange);
    assert_mask_error(IPv4Mask::new(0), IPv4MaskError::CidrOutOfRange);
}

#[test]
fn ipv4_mask_from_subnet_mask_test() {
    let mut cidr = 1;

    for addr in mask_table().iter() {
        let fixture = IPv4Mask::try_from(addr).unwrap();

        assert_eq!(cidr, fixture.cidr());
        cidr += 1;
    }

    let fixture = IPv4Mask::try_from(&IPv4::try_from_str("128.1.0.1").unwrap());
    assert_mask_error(fixture, IPv4MaskError::InvalidSubnetMask);
}

#[test]
fn ipv4_mask_debug_test() {
    for i in 1u8..=32 {
        let fixture = IPv4Mask::new(i).unwrap();
        assert_eq!(fixture.format(), format!("/{}", i))
    }
}

#[test]
fn ipv4_mask_display_test() {
    for i in 1u8..=32 {
        let fixture = IPv4Mask::new(i).unwrap();
        assert_eq!(format!("{}", fixture.format()), format!("/{}", i))
    }
}

#[test]
fn ipv4_mask_subnet_mask_test() {
    let table = mask_table();
    for i in 1u8..=32 {
        let fixture = IPv4Mask::new(i).unwrap();
        let expected = &table[(i - 1) as usize];

        assert_eq!(fixture.mask_address(), expected)
    }
}

#[test]
fn ipv4_mask_network_address_test() {
    let mask = IPv4Mask::try_from(&IPv4::try_from_str("255.255.255.0").unwrap()).unwrap();
    let addr = IPv4::try_from_str("192.168.10.102").unwrap();

    let actual = mask.network_address(&addr);

    assert_eq!(actual, IPv4::try_from_str("192.168.10.0").unwrap())
}

#[test]
fn ipv4_mask_broadcast_address_test() {
    let mask = IPv4Mask::try_from(&IPv4::try_from_str("255.255.255.0").unwrap()).unwrap();
    let addr = IPv4::try_from_str("192.168.10.102").unwrap();

    let actual = mask.broadcast_address(&addr);

    assert_eq!(actual, IPv4::try_from_str("192.168.10.255").unwrap())
}

#[test]
fn ipv4_mask_eq_test() {
    let a = IPv4Mask::new(1).unwrap();
    let b = IPv4Mask::new(1).unwrap();

    assert!(a == b);
    assert!(!(a != b));
}

#[test]
fn ipv4_mask_ne_test() {
    let a = IPv4Mask::new(1).unwrap();
    let b = IPv4Mask::new(2).unwrap();

    assert!(!(a == b));
    assert!(a != b);
}
