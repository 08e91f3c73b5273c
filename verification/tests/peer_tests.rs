use vlawn::peer::{parse_ipv4, Ipv4Address, Peer};

fn addr(a: u8, b: u8, c: u8, d: u8) -> Ipv4Address {
    Ipv4Address { octet0: a, octet1: b, octet2: c, octet3: d }
}

#[test]
fn peers_compare_by_username_and_address() {
    let a = Peer::new("ann".to_string(), addr(10, 0, 0, 1));
    let b = Peer::new("ann".to_string(), addr(10, 0, 0, 1));
    let c = Peer::new("ann".to_string(), addr(10, 0, 0, 2));
    let d = Peer::new("dan".to_string(), addr(10, 0, 0, 1));
    assert_eq!(a, b);
    assert_ne!(a, c);
    assert_ne!(a, d);
}

#[test]
fn parse_accepts_plain_addresses() {
    assert_eq!(parse_ipv4("10.0.0.7"), Some(addr(10, 0, 0, 7)));
    assert_eq!(parse_ipv4("0.0.0.0"), Some(addr(0, 0, 0, 0)));
    assert_eq!(parse_ipv4("255.255.255.255"), Some(addr(255, 255, 255, 255)));
    assert_eq!(parse_ipv4("192.168.1.30"), Some(addr(192, 168, 1, 30)));
}

#[test]
fn parse_rejects_out_of_range_octets() {
    assert_eq!(parse_ipv4("256.0.0.1"), None);
    assert_eq!(parse_ipv4("1.2.3.999"), None);
    assert_eq!(parse_ipv4("1.2.3.1000"), None);
}

#[test]
fn parse_rejects_wrong_shapes() {
    assert_eq!(parse_ipv4(""), None);
    assert_eq!(parse_ipv4("1.2.3"), None);
    assert_eq!(parse_ipv4("1.2.3.4.5"), None);
    assert_eq!(parse_ipv4("1..2.3"), None);
    assert_eq!(parse_ipv4("1.2.3."), None);
    assert_eq!(parse_ipv4(".1.2.3"), None);
}

#[test]
fn parse_rejects_non_digits_and_padding() {
    assert_eq!(parse_ipv4("a.b.c.d"), None);
    assert_eq!(parse_ipv4("+1.2.3.4"), None);
    assert_eq!(parse_ipv4(" 1.2.3.4"), None);
    assert_eq!(parse_ipv4("1.2.3.4 "), None);
}

#[test]
fn parse_rejects_leading_zeros() {
    assert_eq!(parse_ipv4("01.2.3.4"), None);
    assert_eq!(parse_ipv4("1.2.3.007"), None);
}
