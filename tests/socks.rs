use local_proxy::addr::{HostName, SocketAddr};
use local_proxy::config::ProxyConfig;
use local_proxy::error::Error;
use local_proxy::socks4::{reply_granted, Socks4Proxy};
use local_proxy::socks5::{auth_granted, connect_request, greeting, method_selected, reply_head, Method, ReplyAddr, Socks5Action, Socks5Proxy, Socks5Session, Socks5State};

fn conf(user: Option<&str>, password: Option<&str>) -> ProxyConfig {
    ProxyConfig {
        protocol: "socks4".to_string(),
        user: user.map(|s| s.to_string()),
        password: password.map(|s| s.to_string()),
        server: "127.0.0.1:1080".to_string(),
    }
}

#[test]
fn socks4_placeholder_target_is_refused() {
    let p = Socks4Proxy::new(&conf(None, None)).unwrap();
    for x in 1..=255u8 {
        let t = SocketAddr::new(HostName::V4([0, 0, 0, x]), 80);
        assert_eq!(p.request(&t), Err(Error::Config));
    }
    let t = SocketAddr::new(HostName::V4([0, 0, 0, 0]), 80);
    assert!(p.request(&t).is_ok());
}

#[test]
fn socks4_ipv4_request() {
    let p = Socks4Proxy::new(&conf(Some("bob"), None)).unwrap();
    let t = SocketAddr::new(HostName::V4([10, 1, 2, 3]), 0x1f90);
    assert_eq!(p.request(&t).unwrap(), vec![4, 1, 0x1f, 0x90, 10, 1, 2, 3, b'b', b'o', b'b', 0]);
}

#[test]
fn socks4a_domain_request() {
    let p = Socks4Proxy::new(&conf(Some("u"), Some("p"))).unwrap();
    assert_eq!(p.auth.as_deref(), Some("u:p"));
    let t = SocketAddr::new(HostName::Domain("a.b".to_string()), 443);
    assert_eq!(
        p.request(&t).unwrap(),
        vec![4, 1, 1, 187, 0, 0, 0, 1, b'u', b':', b'p', 0, b'a', b'.', b'b', 0]
    );
}

#[test]
fn socks4_rejects_v6_and_nul() {
    let p = Socks4Proxy::new(&conf(None, None)).unwrap();
    assert!(p.auth.is_none());
    let t = SocketAddr::new(HostName::V6([0, 0, 0, 0, 0, 0, 0, 1]), 80);
    assert_eq!(p.request(&t), Err(Error::Unsupported));
    let t = SocketAddr::new(HostName::Domain("a\0b".to_string()), 80);
    assert_eq!(p.request(&t), Err(Error::Config));
    assert!(matches!(Socks4Proxy::new(&conf(Some("a\0"), None)), Err(Error::Config)));
}

#[test]
fn socks4_reply() {
    assert!(reply_granted(0, 0x5a).is_ok());
    assert_eq!(reply_granted(0, 0x5b), Err(Error::Protocol));
    assert_eq!(reply_granted(4, 0x5a), Err(Error::Protocol));
}

#[test]
fn socks5_handshake_frames() {
    assert_eq!(greeting(), vec![5, 2, 0, 2]);
    assert_eq!(method_selected(5, 0), Ok(Method::NoAuth));
    assert_eq!(method_selected(5, 2), Ok(Method::UserPassword));
    assert_eq!(method_selected(5, 1), Err(Error::Protocol));
    assert_eq!(method_selected(4, 0), Err(Error::Protocol));
    assert!(auth_granted(1, 0).is_ok());
    assert!(auth_granted(1, 1).is_err());
    let p = Socks5Proxy::new(&conf(Some("ab"), Some("xyz"))).unwrap();
    assert_eq!(p.auth_request(), vec![1, 2, b'a', b'b', 3, b'x', b'y', b'z']);
    let long = "x".repeat(256);
    assert!(matches!(Socks5Proxy::new(&conf(Some(&long), None)), Err(Error::Config)));
}

#[test]
fn socks5_connect_requests() {
    let t = SocketAddr::new(HostName::V4([1, 2, 3, 4]), 80);
    assert_eq!(connect_request(&t).unwrap(), vec![5, 1, 0, 1, 1, 2, 3, 4, 0, 80]);
    let t = SocketAddr::new(HostName::V6([0x2001, 0xdb8, 0, 0, 0, 0, 0, 0x0102]), 443);
    let mut expected = vec![5, 1, 0, 4, 0x20, 0x01, 0x0d, 0xb8];
    expected.extend_from_slice(&[0; 10]);
    expected.extend_from_slice(&[0x01, 0x02, 1, 187]);
    assert_eq!(connect_request(&t).unwrap(), expected);
    let t = SocketAddr::new(HostName::Domain("ab.c".to_string()), 8080);
    assert_eq!(connect_request(&t).unwrap(), vec![5, 1, 0, 3, 4, b'a', b'b', b'.', b'c', 0x1f, 0x90]);
    let t = SocketAddr::new(HostName::Domain("d".repeat(256)), 1);
    assert_eq!(connect_request(&t), Err(Error::Config));
}

#[test]
fn socks5_reply_heads() {
    assert_eq!(reply_head(&[5, 0, 0, 1]), Ok(ReplyAddr::Fixed(6)));
    assert_eq!(reply_head(&[5, 0, 0, 4]), Ok(ReplyAddr::Fixed(18)));
    assert_eq!(reply_head(&[5, 0, 0, 3]), Ok(ReplyAddr::Prefixed));
    assert_eq!(reply_head(&[5, 0, 0, 2]), Err(Error::Protocol));
    assert_eq!(reply_head(&[5, 1, 0, 1]), Err(Error::Protocol));
}

fn exchange(a: Socks5Action) -> (Vec<u8>, usize) {
    match a {
        Socks5Action::Exchange { send, read } => (send, read),
        other => panic!("expected an exchange, got {:?}", other),
    }
}

#[test]
fn socks5_session_with_password_and_domain_reply() {
    let p = Socks5Proxy::new(&conf(Some("u"), Some("pw"))).unwrap();
    let t = SocketAddr::new(HostName::Domain("ex.org".to_string()), 443);
    let mut s = Socks5Session::new(&p, &t);
    assert_eq!(exchange(s.start()), (vec![5, 2, 0, 2], 2));
    assert_eq!(exchange(s.on_read(&[5, 2])), (vec![1, 1, b'u', 2, b'p', b'w'], 2));
    let (req, n) = exchange(s.on_read(&[1, 0]));
    assert_eq!(req, vec![5, 1, 0, 3, 6, b'e', b'x', b'.', b'o', b'r', b'g', 1, 187]);
    assert_eq!(n, 4);
    assert_eq!(exchange(s.on_read(&[5, 0, 0, 3])), (vec![], 1));
    assert_eq!(exchange(s.on_read(&[3])), (vec![], 5));
    assert!(matches!(s.on_read(&[b'a', b'b', b'c', 0, 80]), Socks5Action::Done));
    assert_eq!(s.state, Socks5State::Done);
}

#[test]
fn socks5_session_without_auth_and_failures() {
    let p = Socks5Proxy::new(&conf(None, None)).unwrap();
    let t = SocketAddr::new(HostName::V4([1, 2, 3, 4]), 80);
    let mut s = Socks5Session::new(&p, &t);
    s.start();
    assert_eq!(exchange(s.on_read(&[5, 0])), (vec![5, 1, 0, 1, 1, 2, 3, 4, 0, 80], 4));
    assert_eq!(exchange(s.on_read(&[5, 0, 0, 1])), (vec![], 6));
    assert!(matches!(s.on_read(&[0; 6]), Socks5Action::Done));

    let mut s = Socks5Session::new(&p, &t);
    s.start();
    assert!(matches!(s.on_read(&[5, 0xff]), Socks5Action::Fail(Error::Protocol)));
    assert_eq!(s.state, Socks5State::Failed);

    let mut s = Socks5Session::new(&p, &t);
    s.start();
    s.on_read(&[5, 0]);
    assert!(matches!(s.on_read(&[5, 1, 0, 1]), Socks5Action::Fail(Error::Protocol)));
}
