use local_proxy::addr::HostName;
use local_proxy::error::Error;
use local_proxy::uri::ParsedUri;

#[test]
fn absolute_uri_with_credentials() {
    let u = ParsedUri::from_parts(Some("http"), Some("us%20er:p%40ss@example.com:8080"), "/a/b", Some("x=1")).unwrap();
    assert_eq!(u.scheme(), Some("http"));
    assert_eq!(u.user(), Some("us er"));
    assert_eq!(u.password(), Some("p@ss"));
    assert!(matches!(u.hostname(), Some(HostName::Domain(d)) if d == "example.com"));
    assert_eq!(u.port, Some(8080));
    assert_eq!(u.path(), "/a/b");
    assert_eq!(u.query(), Some("x=1"));
    assert_eq!(u.authority().unwrap(), "us%20er:p%40ss@example.com:8080");
    assert_eq!(u.path_and_query(), "/a/b?x=1");
}

#[test]
fn credentials_are_encoded_non_alphanumeric() {
    let u = ParsedUri::from_parts(Some("https"), Some("a.b-c@h"), "", None).unwrap();
    assert_eq!(u.user(), Some("a.b-c"));
    assert_eq!(u.authority().unwrap(), "a%2Eb%2Dc@h");
}

#[test]
fn defaults_and_empty_query() {
    let u = ParsedUri::from_parts(Some("https"), Some("[::1]"), "", Some("")).unwrap();
    assert_eq!(u.path(), "/");
    assert_eq!(u.query(), None);
    assert_eq!(u.port, None);
    assert_eq!(u.authority().unwrap(), "[::1]");
}

#[test]
fn authority_only_form() {
    let u = ParsedUri::from_parts(None, Some("example.com:443"), "", None).unwrap();
    assert_eq!(u.scheme(), None);
    assert_eq!(u.port, Some(443));
    assert_eq!(ParsedUri::from_parts(None, Some("example.com"), "", None).err(), Some(Error::Config));
    assert_eq!(ParsedUri::from_parts(None, Some("example.com:443"), "/x", None).err(), Some(Error::Config));
    assert_eq!(ParsedUri::from_parts(None, Some("u@example.com:443"), "", None).err(), Some(Error::Config));
}

#[test]
fn origin_form_and_invalid_forms() {
    let u = ParsedUri::from_parts(None, None, "/index.html", Some("q")).unwrap();
    assert!(u.hostname().is_none());
    assert_eq!(u.path_and_query(), "/index.html?q");
    assert_eq!(ParsedUri::from_parts(None, None, "", None).err(), Some(Error::Config));
    assert_eq!(ParsedUri::from_parts(Some("http"), None, "/", None).err(), Some(Error::Config));
    assert_eq!(ParsedUri::from_parts(Some("http"), Some("u%ff@h"), "/", None).err(), Some(Error::Config));
}

#[test]
fn emitted_uri_reads_back_the_same() {
    let cases = [
        (Some("http"), Some("us%20er:p%3Aw@example.com:8080"), "/a", Some("q=1")),
        (Some("https"), Some("[2001:db8::1]:443"), "/", None),
        (Some("http"), Some("u@10.0.0.1"), "/x/y", None),
    ];
    for (scheme, authority, path, query) in cases {
        let u = ParsedUri::from_parts(scheme, authority, path, query).unwrap();
        let a = u.authority().unwrap();
        let v = ParsedUri::from_parts(u.scheme(), Some(&a), u.path(), u.query()).unwrap();
        assert_eq!(v.scheme(), u.scheme());
        assert_eq!(v.user(), u.user());
        assert_eq!(v.password(), u.password());
        assert_eq!(v.hostname().unwrap().to_string(), u.hostname().unwrap().to_string());
        assert_eq!(v.port, u.port);
        assert_eq!(v.path(), u.path());
        assert_eq!(v.query(), u.query());
        assert_eq!(v.authority().unwrap(), a);
    }
}
