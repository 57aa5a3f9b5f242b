use ip_blocker::ipv4::{create_ipv4_addr, create_ipv4_addr_param, parse_ipv4, AddrParseError, Ipv4Address};

#[test]
fn test_create_ipv4_addr() {
    let ip_addr = Ipv4Address::new(192, 168, 0, 1);
    let result = create_ipv4_addr(ip_addr);
    let expected_output: u32 = 3232235521;
    assert_eq!(result.unwrap(), expected_output);
}

#[test]
fn iptool_test_create_ipv4_addr_param() {
    // Test case 1: Valid IP address
    let ip_addr = Ipv4Address::new(192, 168, 0, 1);
    let result = create_ipv4_addr_param(ip_addr);
    assert!(result.is_ok());
    assert_eq!(result.unwrap(), 3232235521);

    // Test case 2: Another valid IP address
    let ip_addr = Ipv4Address::new(10, 0, 0, 1);
    let result = create_ipv4_addr_param(ip_addr);
    assert!(result.is_ok());
    assert_eq!(result.unwrap(), 167772161);

    // Test case 3: 255.0.0.1
    let ip_addr = Ipv4Address::new(255, 0, 0, 1);
    let result = create_ipv4_addr_param(ip_addr);
    assert!(result.is_ok());
}

#[test]
fn test_create_ipv4_addr_param() {
    let ip_addr = Ipv4Address::new(192, 168, 0, 1);
    let result = create_ipv4_addr_param(ip_addr);
    let expected_output: u32 = 3232235521;
    assert_eq!(result.unwrap(), expected_output);
}

#[test]
fn both_conversions_agree_on_extremes() {
    for ip in [
        Ipv4Address::new(0, 0, 0, 0),
        Ipv4Address::new(255, 255, 255, 255),
        Ipv4Address::new(1, 2, 3, 4),
        Ipv4Address::new(162, 159, 136, 234),
    ] {
        assert_eq!(create_ipv4_addr(ip).unwrap(), create_ipv4_addr_param(ip).unwrap());
    }
    assert_eq!(create_ipv4_addr(Ipv4Address::new(0, 0, 0, 0)).unwrap(), 0);
    assert_eq!(create_ipv4_addr(Ipv4Address::new(255, 255, 255, 255)).unwrap(), u32::MAX);
    assert_eq!(create_ipv4_addr(Ipv4Address::new(1, 2, 3, 4)).unwrap(), 0x01020304);
    assert_eq!(create_ipv4_addr(Ipv4Address::new(162, 159, 136, 234)).unwrap(), 0xA29F88EA);
}

#[test]
fn octets_and_bits() {
    let ip = Ipv4Address::new(10, 20, 30, 40);
    assert_eq!(ip.octets(), [10, 20, 30, 40]);
    assert_eq!(ip.to_bits(), 0x0A141E28);
}

#[test]
fn parse_accepts_dotted_decimal() {
    assert_eq!(parse_ipv4("192.168.0.1"), Ok(Ipv4Address::new(192, 168, 0, 1)));
    assert_eq!(parse_ipv4("0.0.0.0"), Ok(Ipv4Address::new(0, 0, 0, 0)));
    assert_eq!(parse_ipv4("255.255.255.255"), Ok(Ipv4Address::new(255, 255, 255, 255)));
    assert_eq!(parse_ipv4("10.0.0.1"), Ok(Ipv4Address::new(10, 0, 0, 1)));
    assert_eq!(parse_ipv4("162.159.136.234"), Ok(Ipv4Address::new(162, 159, 136, 234)));
    assert_eq!(parse_ipv4("1.22.100.9"), Ok(Ipv4Address::new(1, 22, 100, 9)));
}

#[test]
fn parse_rejects_other_text() {
    for text in [
        "", "1.2.3", "1.2.3.4.5", "256.0.0.1", "1.2.3.256", "01.2.3.4", "1.2.3.04", "00.0.0.0",
        "1..2.3", ".1.2.3", "1.2.3.", " 1.2.3.4", "1.2.3.4 ", "1234.1.1.1", "1.2.3.-4", "a.b.c.d",
        "1.2.3.4\n", "\u{FF11}.2.3.4", "999.1.1.1", "1.2.3.0004",
    ] {
        assert_eq!(parse_ipv4(text), Err(AddrParseError), "{:?}", text);
    }
}

#[test]
fn parse_then_convert() {
    let ip = parse_ipv4("192.168.0.1").unwrap();
    assert_eq!(create_ipv4_addr(ip).unwrap(), 3232235521);
}
