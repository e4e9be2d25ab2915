use local_proxy::error::Error;
use local_proxy::forward::prepare_forward;
use local_proxy::http::HeaderField;
use local_proxy::uri::ParsedUri;

fn h(n: &str, v: &str) -> HeaderField {
    HeaderField { name: n.to_string(), value: v.as_bytes().to_vec() }
}

fn get<'a>(hs: &'a [HeaderField], n: &str) -> Vec<&'a [u8]> {
    hs.iter().filter(|x| x.name == n).map(|x| x.value.as_slice()).collect()
}

#[test]
fn hop_by_hop_headers_are_stripped() {
    let u = ParsedUri::from_parts(Some("http"), Some("example.com:80"), "/p", Some("q=1")).unwrap();
    let hs = vec![
        h("host", "old"),
        h("proxy-authorization", "x"),
        h("proxy-connection", "keep-alive"),
        h("te", "gzip, trailers;q=0.5"),
        h("accept", "*/*"),
    ];
    let f = prepare_forward(&u, &hs).unwrap();
    assert!(f.headers.iter().all(|x| !x.name.starts_with("proxy-")));
    assert_eq!(get(&f.headers, "te"), vec![b"trailers".as_slice()]);
    assert_eq!(get(&f.headers, "host"), vec![b"example.com".as_slice()]);
    assert_eq!(get(&f.headers, "accept"), vec![b"*/*".as_slice()]);
    assert_eq!(f.path_and_query, "/p?q=1");
    assert_eq!(f.scheme, "http");
    assert_eq!(f.port, None);
}

#[test]
fn te_without_trailers_is_removed() {
    let u = ParsedUri::from_parts(Some("https"), Some("[::1]:8443"), "", None).unwrap();
    let f = prepare_forward(&u, &vec![h("te", "gzip")]).unwrap();
    assert!(get(&f.headers, "te").is_empty());
    assert_eq!(get(&f.headers, "host"), vec![b"[::1]:8443".as_slice()]);
    assert_eq!(f.port, Some(8443));
    assert_eq!(f.path_and_query, "/");
}

#[test]
fn credentials_become_authorization() {
    let u = ParsedUri::from_parts(Some("http"), Some("user:pw@example.com"), "/", None).unwrap();
    let f = prepare_forward(&u, &vec![]).unwrap();
    assert_eq!(get(&f.headers, "authorization"), vec![b"Basic dXNlcjpwdw==".as_slice()]);
    let u = ParsedUri::from_parts(Some("http"), Some("user@example.com"), "/", None).unwrap();
    let f = prepare_forward(&u, &vec![h("authorization", "Bearer t")]).unwrap();
    assert_eq!(get(&f.headers, "authorization"), vec![b"Bearer t".as_slice()]);
    let f = prepare_forward(&u, &vec![]).unwrap();
    assert_eq!(get(&f.headers, "authorization"), vec![b"Basic dXNlcg==".as_slice()]);
}

#[test]
fn origin_form_takes_host_header() {
    let u = ParsedUri::from_parts(None, None, "/x", None).unwrap();
    let f = prepare_forward(&u, &vec![h("host", "example.org:8080")]).unwrap();
    assert_eq!(f.scheme, "http");
    assert_eq!(get(&f.headers, "host"), vec![b"example.org:8080".as_slice()]);
    assert_eq!(prepare_forward(&u, &vec![]).err().map(|_| ()), Some(()));
}

#[test]
fn other_schemes_are_refused() {
    let u = ParsedUri::from_parts(Some("ftp"), Some("example.com"), "/", None).unwrap();
    assert!(matches!(prepare_forward(&u, &vec![]), Err(Error::Config)));
}
