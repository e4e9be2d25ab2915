use local_proxy::addr::{AddrError, HostName, SocketAddr};

fn v6(h: &HostName) -> [u16; 8] {
    match h {
        HostName::V6(g) => *g,
        other => panic!("not v6: {:?}", other),
    }
}

#[test]
fn host_header_bracketed_v6() {
    let (h, p) = SocketAddr::parse_host_header("[::1]").unwrap();
    assert_eq!(v6(&h), [0, 0, 0, 0, 0, 0, 0, 1]);
    assert_eq!(p, None);
}

#[test]
fn host_header_bracketed_v6_with_port() {
    let (h, p) = SocketAddr::parse_host_header("[::1]:8080").unwrap();
    assert_eq!(v6(&h), [0, 0, 0, 0, 0, 0, 0, 1]);
    assert_eq!(p, Some(8080));
}

#[test]
fn host_header_domain_with_port() {
    let (h, p) = SocketAddr::parse_host_header("example.com:443").unwrap();
    assert_eq!(h.to_string(), "example.com");
    assert!(matches!(h, HostName::Domain(_)));
    assert_eq!(p, Some(443));
}

#[test]
fn host_header_domain() {
    let (h, p) = SocketAddr::parse_host_header("example.com").unwrap();
    assert!(matches!(h, HostName::Domain(ref d) if d == "example.com"));
    assert_eq!(p, None);
}

#[test]
fn host_header_bad_port() {
    assert!(matches!(
        SocketAddr::parse_host_header("example.com:99999"),
        Err(AddrError::BadPort)
    ));
    assert!(matches!(
        SocketAddr::parse_host_header("example.com:"),
        Err(AddrError::BadPort)
    ));
}

#[test]
fn idna_lowercases_and_encodes() {
    let h = HostName::from_str("ExAmple.COM").unwrap();
    assert_eq!(h.to_string(), "example.com");
    let h = HostName::from_str("bücher.example").unwrap();
    assert_eq!(h.to_string(), "xn--bcher-kva.example");
}

#[test]
fn ipv4_parsing_and_text() {
    let h = HostName::from_str("192.168.0.1").unwrap();
    assert!(matches!(h, HostName::V4([192, 168, 0, 1])));
    assert_eq!(h.to_string(), "192.168.0.1");
    assert!(h.is_ipaddr());
}

#[test]
fn ipv4_leading_zero_is_not_an_address() {
    let h = HostName::from_str("01.2.3.4");
    assert!(!matches!(h, Ok(HostName::V4(_))));
}

#[test]
fn ipv6_forms() {
    let h = HostName::from_str("2001:db8::ff00:42:8329").unwrap();
    assert_eq!(v6(&h), [0x2001, 0xdb8, 0, 0, 0, 0xff00, 0x42, 0x8329]);
    assert_eq!(h.to_string(), "2001:db8::ff00:42:8329");
    assert_eq!(h.to_string_url_style(), "[2001:db8::ff00:42:8329]");
    let h = HostName::from_str("[1:2:3:4:5:6:7:8]").unwrap();
    assert_eq!(v6(&h), [1, 2, 3, 4, 5, 6, 7, 8]);
    assert_eq!(v6(&HostName::from_str("::").unwrap()), [0; 8]);
}

#[test]
fn v4_mapped_v6_collapses() {
    let h = HostName::from_str("::ffff:c0a8:1").unwrap();
    assert!(matches!(h, HostName::V4([192, 168, 0, 1])));
    let h = HostName::from_v6([0, 0, 0, 0, 0, 0xffff, 0x0a00, 0x0001]);
    assert!(matches!(h, HostName::V4([10, 0, 0, 1])));
}

#[test]
fn socket_addr_text() {
    let a = SocketAddr::from_str("[::1]:53").unwrap();
    assert_eq!(a.port, 53);
    assert_eq!(a.to_string(), "[::1]:53");
    let a = SocketAddr::from_str("10.0.0.2:8080").unwrap();
    assert_eq!(a.to_string(), "10.0.0.2:8080");
    assert!(matches!(SocketAddr::from_str("example.com"), Err(AddrError::MissingPort)));
    assert!(!SocketAddr::new(HostName::Domain("x".to_string()), 1).hostname.is_ipaddr());
}

#[test]
fn ipv6_text_compresses_first_longest_zero_run() {
    let text = |g: [u16; 8]| HostName::V6(g).to_string();
    assert_eq!(text([0, 0, 1, 0, 0, 0, 1, 0]), "0:0:1::1:0");
    assert_eq!(text([1, 0, 0, 2, 0, 0, 3, 4]), "1::2:0:0:3:4");
    assert_eq!(text([1, 0, 2, 3, 4, 5, 6, 7]), "1:0:2:3:4:5:6:7");
    assert_eq!(text([0; 8]), "::");
    assert_eq!(text([1, 0, 0, 0, 0, 0, 0, 0]), "1::");
    assert_eq!(text([0xfe80, 0, 0, 0, 0xabc, 0xde, 0xf, 0x1]), "fe80::abc:de:f:1");
}

#[test]
fn ipv6_with_ipv4_tail() {
    let h = HostName::from_str("::ffff:1.2.3.4").unwrap();
    assert!(matches!(h, HostName::V4([1, 2, 3, 4])));
    let h = HostName::from_str("64:ff9b::192.0.2.33").unwrap();
    assert_eq!(v6(&h), [0x64, 0xff9b, 0, 0, 0, 0, 0xc000, 0x0221]);
    let h = HostName::from_str("1:2:3:4:5:6:1.2.3.4").unwrap();
    assert_eq!(v6(&h), [1, 2, 3, 4, 5, 6, 0x0102, 0x0304]);
    let (h, p) = SocketAddr::parse_host_header("[::1.2.3.4]:80").unwrap();
    assert_eq!(v6(&h), [0, 0, 0, 0, 0, 0, 0x0102, 0x0304]);
    assert_eq!(p, Some(80));
    assert!(!matches!(HostName::from_str("1:2:1.2.3.4:5:6:7"), Ok(HostName::V6(_))));
    assert!(!matches!(HostName::from_str("1.2.3.4::"), Ok(HostName::V6(_))));
    assert!(!matches!(HostName::from_str("1:2:3:4:5:6:7:1.2.3.4"), Ok(HostName::V6(_))));
}
