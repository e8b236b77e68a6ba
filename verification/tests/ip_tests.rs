use infrabase::ip::{parse_ipv4, Ipv4};

#[test]
fn test_increment_ip() {
    assert_eq!(Ipv4::new(0, 0, 0, 0).increment(), Some(Ipv4::new(0, 0, 0, 1)));
    assert_eq!(Ipv4::new(0, 0, 0, 1).increment(), Some(Ipv4::new(0, 0, 0, 2)));
    assert_eq!(Ipv4::new(0, 0, 1, 255).increment(), Some(Ipv4::new(0, 0, 2, 0)));
    assert_eq!(Ipv4::new(0, 0, 255, 0).increment(), Some(Ipv4::new(0, 0, 255, 1)));
    assert_eq!(Ipv4::new(0, 2, 255, 255).increment(), Some(Ipv4::new(0, 3, 0, 0)));
    assert_eq!(Ipv4::new(3, 255, 255, 255).increment(), Some(Ipv4::new(4, 0, 0, 0)));
    assert_eq!(Ipv4::new(255, 255, 255, 255).increment(), None);
}

#[test]
fn test_to_text() {
    assert_eq!(Ipv4::new(10, 8, 0, 2).to_text(), "10.8.0.2");
    assert_eq!(Ipv4::new(0, 0, 0, 0).to_text(), "0.0.0.0");
    assert_eq!(Ipv4::new(255, 255, 255, 255).to_text(), "255.255.255.255");
    assert_eq!(Ipv4::new(203, 0, 113, 5).to_text(), "203.0.113.5");
}

#[test]
fn test_parse_ipv4_accepts_canonical() {
    assert_eq!(parse_ipv4("10.8.0.2"), Some(Ipv4::new(10, 8, 0, 2)));
    assert_eq!(parse_ipv4("0.0.0.0"), Some(Ipv4::new(0, 0, 0, 0)));
    assert_eq!(parse_ipv4("255.255.255.255"), Some(Ipv4::new(255, 255, 255, 255)));
    assert_eq!(parse_ipv4("192.168.1.100"), Some(Ipv4::new(192, 168, 1, 100)));
}

#[test]
fn test_parse_ipv4_rejects_malformed() {
    assert_eq!(parse_ipv4(""), None);
    assert_eq!(parse_ipv4("10.8.0"), None);
    assert_eq!(parse_ipv4("10.8.0.2.3"), None);
    assert_eq!(parse_ipv4("256.0.0.1"), None);
    assert_eq!(parse_ipv4("10.8.0.02"), None);
    assert_eq!(parse_ipv4("01.8.0.2"), None);
    assert_eq!(parse_ipv4("10..0.2"), None);
    assert_eq!(parse_ipv4("10.8.0.2 "), None);
    assert_eq!(parse_ipv4("a.b.c.d"), None);
    assert_eq!(parse_ipv4("1234.0.0.1"), None);
}

#[test]
fn test_parse_round_trip() {
    let ips = [
        Ipv4::new(10, 0, 0, 1),
        Ipv4::new(172, 16, 254, 9),
        Ipv4::new(8, 8, 8, 8),
        Ipv4::new(100, 200, 30, 40),
    ];
    for ip in ips {
        assert_eq!(parse_ipv4(&ip.to_text()), Some(ip));
    }
}
