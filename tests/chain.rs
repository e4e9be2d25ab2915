use local_proxy::addr::{HostName, SocketAddr};
use local_proxy::chain::{absolute_uri, build_stack, fallback_warning, race_plan, select_chain, tunnel_plan, ChainEdit, ConnectStep, HttpStep, Outbound, ProxyStack, RacePlan, RequestConfig, TlsClient};
use local_proxy::config::ProxyConfig;
use local_proxy::error::Error;

fn proxy(protocol: &str) -> ProxyConfig {
    ProxyConfig { protocol: protocol.to_string(), user: None, password: None, server: "10.0.0.1:3128".to_string() }
}

fn names(s: &[Outbound]) -> Vec<&'static str> {
    s.iter()
        .map(|o| match o {
            Outbound::Raw(_) => "raw",
            Outbound::Tls(_) => "tls",
            Outbound::Fragment(_) => "fragment",
            Outbound::Http(_) => "http",
            Outbound::Socks4(_) => "socks4",
            Outbound::Socks5(_) => "socks5",
        })
        .collect()
}

#[test]
fn stack_order() {
    let s = build_stack(&vec![proxy("tls+http"), proxy("socks5")], None).unwrap();
    assert_eq!(names(&s), vec!["raw", "tls", "http", "socks5", "fragment"]);
    let s = build_stack(&vec![proxy("socks4")], Some(2)).unwrap();
    assert_eq!(names(&s), vec!["raw", "socks4"]);
    let s = build_stack(&vec![], Some(1)).unwrap();
    assert_eq!(names(&s), vec!["raw", "fragment"]);
    assert!(matches!(build_stack(&vec![proxy("quic+http")], None), Err(Error::Config)));
    assert!(matches!(build_stack(&vec![proxy("tls")], None), Err(Error::Config)));
}

#[test]
fn chain_walk() {
    let s = build_stack(&vec![proxy("tls+http")], Some(2)).unwrap();
    let mut tail = ProxyStack::new(s.len());
    let top = tail.next().unwrap();
    assert_eq!(top, 2);
    let copy = tail;
    assert_eq!(s[top].connect_step(&mut tail), Ok(ConnectStep::ViaServer(1)));
    assert_eq!(s[1].connect_step(&mut tail), Ok(ConnectStep::Wrap(0)));
    assert_eq!(s[0].connect_step(&mut tail), Ok(ConnectStep::Direct));
    assert_eq!(copy.remaining, 2);
    let mut t = ProxyStack::new(0);
    assert_eq!(s[1].connect_step(&mut t), Err(Error::Config));
}

#[test]
fn http_steps() {
    let s = build_stack(&vec![proxy("http")], None).unwrap();
    let mut tail = ProxyStack::new(2);
    assert_eq!(s[2].http_step(&mut tail, "http"), Ok(HttpStep::Passthrough(1)));
    assert_eq!(s[1].http_step(&mut tail, "http"), Ok(HttpStep::Native(0)));
    let mut tail = ProxyStack::new(1);
    assert_eq!(s[1].http_step(&mut tail, "https"), Ok(HttpStep::Tunnel));
    assert_eq!(tail.remaining, 1);
    assert_eq!(s[0].http_step(&mut tail, "http"), Ok(HttpStep::Tunnel));
}

#[test]
fn chain_selection() {
    assert_eq!(select_chain(None, Some(false)), ChainEdit::DropTail);
    assert_eq!(select_chain(Some(2), Some(true)), ChainEdit::PushFragment);
    assert_eq!(select_chain(None, Some(true)), ChainEdit::Keep);
    assert_eq!(select_chain(Some(2), Some(false)), ChainEdit::Keep);
    assert_eq!(select_chain(Some(1), None), ChainEdit::Keep);
}

#[test]
fn tunnel_planning() {
    let mut conf = RequestConfig::new();
    let p = tunnel_plan("https", "example.com", &conf).unwrap();
    assert_eq!(p.addr.port, 443);
    assert!(p.tls && p.happy_eyeballs);
    conf.fake_host = Some(HostName::V4([1, 1, 1, 1]));
    conf.doh = false;
    let p = tunnel_plan("http", "example.com:8080", &conf).unwrap();
    assert_eq!(p.connect_to.to_string(), "1.1.1.1:8080");
    assert_eq!(p.addr.to_string(), "example.com:8080");
    assert!(!p.tls && !p.happy_eyeballs);
    assert!(matches!(tunnel_plan("ws", "example.com", &conf), Err(Error::Config)));
}

#[test]
fn racing_only_domains_with_doh() {
    let d = SocketAddr::new(HostName::Domain("example.com".to_string()), 443);
    let ip = SocketAddr::new(HostName::V4([1, 2, 3, 4]), 443);
    assert_eq!(race_plan(true, &d), RacePlan::Race);
    assert_eq!(race_plan(false, &d), RacePlan::Direct);
    assert_eq!(race_plan(true, &ip), RacePlan::Direct);
    assert!(fallback_warning(false, false));
    assert!(!fallback_warning(false, true));
    assert!(!fallback_warning(true, true));
}

#[test]
fn tls_server_name_has_no_brackets() {
    let t = SocketAddr::new(HostName::V6([0, 0, 0, 0, 0, 0, 0, 1]), 443);
    assert_eq!(TlsClient::new().server_name(&t), "::1");
}

#[test]
fn stack_refuses_unusable_proxy_settings() {
    let mut p = proxy("socks4");
    p.user = Some("a\0b".to_string());
    assert!(build_stack(&vec![p], None).is_err());
    let mut p = proxy("socks5");
    p.password = Some("x".repeat(300));
    assert!(build_stack(&vec![p], None).is_err());
    let mut p = proxy("http");
    p.server = "no-port".to_string();
    assert!(build_stack(&vec![p], None).is_err());
}

#[test]
fn doh_request_options() {
    let c = RequestConfig::for_doh(Some("1.1.1.1"), Some(1));
    assert!(!c.doh);
    assert!(matches!(c.fake_host, Some(HostName::V4([1, 1, 1, 1]))));
    assert_eq!(c.fragment, Some(true));
    let c = RequestConfig::for_doh(None, None);
    assert!(c.fake_host.is_none());
    assert_eq!(c.fragment, None);
    assert_eq!(absolute_uri("http", "example.com:8080", "/a?b"), "http://example.com:8080/a?b");
}
