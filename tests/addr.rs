use trexd::addr::{parse_ipv4, Ipv4};
use trexd::route::{App, TlsConfig};

#[test]
fn parses_four_octets() {
    assert_eq!(parse_ipv4("10.0.0.1"), Some(Ipv4(10, 0, 0, 1)));
    assert_eq!(parse_ipv4("255.255.255.255"), Some(Ipv4(255, 255, 255, 255)));
    assert_eq!(parse_ipv4("0.0.0.0"), Some(Ipv4(0, 0, 0, 0)));
}

#[test]
fn accepts_leading_zeros_and_plus() {
    assert_eq!(parse_ipv4("007.010.0.255"), Some(Ipv4(7, 10, 0, 255)));
    assert_eq!(parse_ipv4("+1.2.3.+4"), Some(Ipv4(1, 2, 3, 4)));
}

#[test]
fn rejects_wrong_piece_count() {
    assert_eq!(parse_ipv4("1.2.3"), None);
    assert_eq!(parse_ipv4("1.2.3.4.5"), None);
    assert_eq!(parse_ipv4(""), None);
    assert_eq!(parse_ipv4("1234"), None);
}

#[test]
fn rejects_bad_octets() {
    assert_eq!(parse_ipv4("256.0.0.1"), None);
    assert_eq!(parse_ipv4("1..2.3"), None);
    assert_eq!(parse_ipv4("1.2.3."), None);
    assert_eq!(parse_ipv4("a.b.c.d"), None);
    assert_eq!(parse_ipv4("1.2.3.-4"), None);
    assert_eq!(parse_ipv4("1.2.3.+"), None);
    assert_eq!(parse_ipv4(" 1.2.3.4"), None);
    assert_eq!(parse_ipv4("1.2.3.99999999999"), None);
}

#[test]
fn entry_from_dotted_address() {
    let tls = TlsConfig { cert_path: "cert_a".to_string(), key_path: "key_a".to_string() };
    let app = App::from_parts("10.0.0.1", 8080, "a.example".to_string(), Some(tls)).unwrap();
    assert_eq!(app.addr, Ipv4(10, 0, 0, 1));
    assert_eq!(app.port, 8080);
    assert_eq!(app.hostname, "a.example");
    assert_eq!(app.tls.as_ref().unwrap().cert_path, "cert_a");
    assert!(App::from_parts("10.0.0", 8080, "a.example".to_string(), None).is_none());
}
