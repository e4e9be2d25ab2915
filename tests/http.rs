use local_proxy::addr::{HostName, SocketAddr};
use local_proxy::config::ProxyConfig;
use local_proxy::http::{connect_succeeded, HttpProxy};

#[test]
fn http_proxy_credentials() {
    let c = ProxyConfig { protocol: "http".into(), user: Some("Aladdin".into()), password: Some("open sesame".into()), server: "proxy:3128".into() };
    let p = HttpProxy::new(&c).unwrap();
    assert_eq!(p.auth.as_deref(), Some("QWxhZGRpbjpvcGVuIHNlc2FtZQ=="));
    assert_eq!(p.authorization().unwrap(), "Basic QWxhZGRpbjpvcGVuIHNlc2FtZQ==");
    let c = ProxyConfig { protocol: "http".into(), user: None, password: None, server: "proxy:3128".into() };
    assert!(HttpProxy::new(&c).unwrap().auth.is_none());
}

#[test]
fn connect_request_headers() {
    let c = ProxyConfig { protocol: "http".into(), user: Some("u".into()), password: None, server: "proxy:3128".into() };
    let p = HttpProxy::new(&c).unwrap();
    let hs = p.connect_headers(&SocketAddr::new(HostName::Domain("example.com".into()), 443));
    assert_eq!(hs.len(), 4);
    assert_eq!(hs[0].name, "host");
    assert_eq!(hs[0].value, b"example.com:443".to_vec());
    assert_eq!(hs[2].name, "proxy-connection");
    assert_eq!(hs[3].value, b"Basic dTo=".to_vec());
    assert!(connect_succeeded(200).is_ok());
    assert!(connect_succeeded(299).is_ok());
    assert!(connect_succeeded(407).is_err());
}
