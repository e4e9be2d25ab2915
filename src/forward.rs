use crate::addr::{Host, HostName, SocketAddr, host_url_text, parse_host_header_spec};
use crate::error::Error;
use crate::http::{HeaderField, ascii_bytes, ascii_to_bytes, base64_encode, base64_of};
use crate::num::{dec_text, push_dec, split, split_chars};
use crate::text::{chars_eq_str, chars_of, find, push_all, string_of, sub_chars};
use crate::uri::{ParsedUri, UriModel, path_and_query_text};
use vstd::prelude::*;
use vstd::utf8::encode_utf8;

verus! {

/// A header as name and value.
pub open spec fn hv(h: HeaderField) -> (Seq<char>, Seq<u8>) {
    (h.name@, h.value@)
}

pub open spec fn hview(hs: Seq<HeaderField>) -> Seq<(Seq<char>, Seq<u8>)> {
    hs.map_values(|h: HeaderField| hv(h))
}

/// The value of the first header named `n`.
pub open spec fn first_value(hs: Seq<(Seq<char>, Seq<u8>)>, n: Seq<char>) -> Option<Seq<u8>>
    decreases hs.len(),
{
    if hs.len() == 0 {
        None
    } else if hs[0].0 == n {
        Some(hs[0].1)
    } else {
        first_value(hs.subrange(1, hs.len() as int), n)
    }
}

/// A header value that reads as text: visible ASCII and tabs.
pub open spec fn is_visible(v: Seq<u8>) -> bool {
    forall|i: int| 0 <= i < v.len() ==> (32 <= #[trigger] v[i] < 127 || v[i] == 9)
}

pub open spec fn bytes_text(v: Seq<u8>) -> Seq<char> {
    Seq::new(v.len(), |i: int| v[i] as char)
}

pub open spec fn is_ws(c: char) -> bool {
    c == ' ' || c == '\t'
}

pub open spec fn trim_start(s: Seq<char>) -> Seq<char>
    decreases s.len(),
{
    if s.len() > 0 && is_ws(s[0]) {
        trim_start(s.subrange(1, s.len() as int))
    } else {
        s
    }
}

pub open spec fn trim_end(s: Seq<char>) -> Seq<char>
    decreases s.len(),
{
    if s.len() > 0 && is_ws(s.last()) {
        trim_end(s.drop_last())
    } else {
        s
    }
}

/// A `TE` list item without its parameters and surrounding blanks.
pub open spec fn te_item(p: Seq<char>) -> Seq<char> {
    trim_end(trim_start(split(p, ';')[0]))
}

/// Whether a `TE` value lists `trailers`.
pub open spec fn lists_trailers(v: Seq<u8>) -> bool {
    is_visible(v) && exists|i: int|
        0 <= i < split(bytes_text(v), ',').len() && #[trigger] te_item(
            split(bytes_text(v), ',')[i],
        ) == "trailers"@
}

pub open spec fn starts_with(s: Seq<char>, p: Seq<char>) -> bool {
    s.len() >= p.len() && s.subrange(0, p.len() as int) == p
}

/// Headers that are forwarded as they are.
pub open spec fn kept(n: Seq<char>, drop_auth: bool) -> bool {
    !starts_with(n, "proxy-"@) && n != "te"@ && n != "host"@ && !(drop_auth && n
        == "authorization"@)
}

pub open spec fn filter_headers(hs: Seq<(Seq<char>, Seq<u8>)>, drop_auth: bool) -> Seq<
    (Seq<char>, Seq<u8>),
>
    decreases hs.len(),
{
    if hs.len() == 0 {
        Seq::empty()
    } else if kept(hs.last().0, drop_auth) {
        filter_headers(hs.drop_last(), drop_auth).push(hs.last())
    } else {
        filter_headers(hs.drop_last(), drop_auth)
    }
}

pub open spec fn default_port(scheme: Seq<char>) -> Option<u16> {
    if scheme == "http"@ {
        Some(80u16)
    } else if scheme == "https"@ {
        Some(443u16)
    } else {
        None
    }
}

/// The request as it goes upstream.
#[derive(Debug)]
pub struct Forward {
    pub scheme: String,
    pub hostname: HostName,
    pub port: Option<u16>,
    pub headers: Vec<HeaderField>,
    pub path_and_query: String,
}

pub struct ForwardModel {
    pub scheme: Seq<char>,
    pub hostname: Host,
    pub port: Option<u16>,
    pub headers: Seq<(Seq<char>, Seq<u8>)>,
    pub path_and_query: Seq<char>,
}

impl View for Forward {
    type V = ForwardModel;

    open spec fn view(&self) -> ForwardModel {
        ForwardModel {
            scheme: self.scheme@,
            hostname: self.hostname@,
            port: self.port,
            headers: hview(self.headers@),
            path_and_query: self.path_and_query@,
        }
    }
}

/// Scheme, host and port of the target: from the URI, or, for a URI
/// without a scheme, `http` and the `Host` header.
pub open spec fn target_of(u: UriModel, hs: Seq<(Seq<char>, Seq<u8>)>) -> Result<
    (Seq<char>, Host, Option<u16>),
    Error,
> {
    match u.scheme {
        Some(s) => if s != "http"@ && s != "https"@ {
            Err(Error::Config)
        } else {
            match u.hostname {
                Some(h) => Ok((s, h, u.port)),
                None => Err(Error::Config),
            }
        },
        None => match first_value(hs, "host"@) {
            None => Err(Error::Config),
            Some(v) => if !is_visible(v) {
                Err(Error::Config)
            } else {
                match parse_host_header_spec(bytes_text(v)) {
                    Err(e) => Err(Error::Addr(e)),
                    Ok((h, p)) => Ok(("http"@, h, p)),
                }
            },
        },
    }
}

/// Whether an `Authorization` header is made from the URI's credentials.
pub open spec fn adds_auth(u: UriModel, hs: Seq<(Seq<char>, Seq<u8>)>) -> bool {
    u.scheme is Some && first_value(hs, "authorization"@) is None && u.user is Some
}

pub open spec fn auth_value(u: UriModel) -> Seq<char> {
    "Basic "@ + base64_of(
        encode_utf8(
            u.user.unwrap() + match u.password {
                Some(p) => seq![':'] + p,
                None => Seq::empty(),
            },
        ),
    )
}

/// The port kept in the request: none when it is the scheme's default.
pub open spec fn kept_port(scheme: Seq<char>, port: Option<u16>) -> Option<u16> {
    match port {
        Some(p) => if default_port(scheme) == Some(p) {
            None
        } else {
            Some(p)
        },
        None => None,
    }
}

/// `Host`: the host, IPv6 in brackets, and `:port` unless it is the default.
pub open spec fn host_value(h: Host, port: Option<u16>) -> Seq<char> {
    match port {
        Some(p) => host_url_text(h) + seq![':'] + dec_text(p as nat),
        None => host_url_text(h),
    }
}

/// The upstream request for URI `u` with headers `hs`.
pub open spec fn forward_spec(u: UriModel, hs: Seq<(Seq<char>, Seq<u8>)>) -> Result<
    ForwardModel,
    Error,
> {
    match target_of(u, hs) {
        Err(e) => Err(e),
        Ok((scheme, h, port)) => {
            let add = adds_auth(u, hs);
            let auth = if add {
                seq![("authorization"@, ascii_bytes(auth_value(u)))]
            } else {
                Seq::empty()
            };
            let te = if first_value(hs, "te"@) is Some && lists_trailers(
                first_value(hs, "te"@).unwrap(),
            ) {
                seq![("te"@, ascii_bytes("trailers"@))]
            } else {
                Seq::empty()
            };
            let kp = kept_port(scheme, port);
            Ok(
                ForwardModel {
                    scheme,
                    hostname: h,
                    port: kp,
                    headers: filter_headers(hs, add) + auth + te + seq![
                        ("host"@, ascii_bytes(host_value(h, kp))),
                    ],
                    path_and_query: path_and_query_text(u),
                },
            )
        },
    }
}

fn get_header(hs: &Vec<HeaderField>, name: &str) -> (r: Option<Vec<u8>>)
    ensures
        match r {
            Some(v) => first_value(hview(hs@), name@) == Some(v@),
            None => first_value(hview(hs@), name@) is None,
        },
{
    let mut i: usize = 0;
    assert(hview(hs@).subrange(0, hs@.len() as int) =~= hview(hs@));
    while i < hs.len()
        invariant
            i <= hs@.len(),
            first_value(hview(hs@), name@) == first_value(
                hview(hs@).subrange(i as int, hs@.len() as int),
                name@,
            ),
        decreases hs@.len() - i,
    {
        let ghost rest = hview(hs@).subrange(i as int, hs@.len() as int);
        assert(rest.subrange(1, rest.len() as int) =~= hview(hs@).subrange(
            i + 1,
            hs@.len() as int,
        ));
        let nc = chars_of(hs[i].name.as_str());
        if chars_eq_str(nc.as_slice(), name) {
            return Some(hs[i].value.clone());
        }
        i = i + 1;
    }
    None
}

fn visible_text(v: &[u8]) -> (r: Option<Vec<char>>)
    ensures
        match r {
            Some(t) => is_visible(v@) && t@ == bytes_text(v@),
            None => !is_visible(v@),
        },
{
    let mut t: Vec<char> = Vec::new();
    let mut i: usize = 0;
    while i < v.len()
        invariant
            i <= v@.len(),
            forall|k: int| 0 <= k < i ==> (32 <= #[trigger] v@[k] < 127 || v@[k] == 9),
            t@ == bytes_text(v@.subrange(0, i as int)),
        decreases v@.len() - i,
    {
        let b = v[i];
        if !((32 <= b && b < 127) || b == 9) {
            return None;
        }
        t.push(b as char);
        i = i + 1;
        assert(t@ =~= bytes_text(v@.subrange(0, i as int)));
    }
    assert(v@.subrange(0, i as int) =~= v@);
    Some(t)
}

fn trimmed(s: &[char]) -> (r: Vec<char>)
    ensures
        r@ == trim_end(trim_start(s@)),
{
    let mut lo: usize = 0;
    assert(s@.subrange(0, s@.len() as int) =~= s@);
    while lo < s.len() && (s[lo] == ' ' || s[lo] == '\t')
        invariant
            lo <= s@.len(),
            trim_start(s@) == trim_start(s@.subrange(lo as int, s@.len() as int)),
        decreases s@.len() - lo,
    {
        let ghost rest = s@.subrange(lo as int, s@.len() as int);
        assert(rest.subrange(1, rest.len() as int) =~= s@.subrange(lo + 1, s@.len() as int));
        lo = lo + 1;
    }
    let ghost t = s@.subrange(lo as int, s@.len() as int);
    assert(trim_start(s@) == t);
    let mut hi: usize = s.len();
    while hi > lo && (s[hi - 1] == ' ' || s[hi - 1] == '\t')
        invariant
            lo <= hi <= s@.len(),
            t == s@.subrange(lo as int, s@.len() as int),
            trim_end(t) == trim_end(s@.subrange(lo as int, hi as int)),
        decreases hi,
    {
        assert(s@.subrange(lo as int, hi as int).drop_last() =~= s@.subrange(lo as int, hi - 1));
        hi = hi - 1;
    }
    sub_chars(s, lo, hi)
}

fn te_lists_trailers(v: &[u8]) -> (r: bool)
    ensures
        r == lists_trailers(v@),
{
    let t = match visible_text(v) {
        Some(t) => t,
        None => return false,
    };
    let parts = split_chars(t.as_slice(), ',');
    let mut i: usize = 0;
    while i < parts.len()
        invariant
            is_visible(v@),
            t@ == bytes_text(v@),
            parts@.len() == split(t@, ',').len(),
            forall|k: int| 0 <= k < parts@.len() ==> #[trigger] parts@[k]@ == split(t@, ',')[k],
            i <= parts@.len(),
            forall|k: int| 0 <= k < i ==> #[trigger] te_item(split(t@, ',')[k]) != "trailers"@,
        decreases parts@.len() - i,
    {
        let sub = split_chars(parts[i].as_slice(), ';');
        let item = trimmed(sub[0].as_slice());
        if chars_eq_str(item.as_slice(), "trailers") {
            assert(te_item(split(t@, ',')[i as int]) == "trailers"@);
            return true;
        }
        i = i + 1;
    }
    false
}

fn name_kept(n: &str, drop_auth: bool) -> (r: bool)
    ensures
        r == kept(n@, drop_auth),
{
    proof {
        reveal_strlit("proxy-");
    }
    let c = chars_of(n);
    let p = chars_of("proxy-");
    let mut is_proxy = c.len() >= 6;
    if is_proxy {
        let pre = sub_chars(c.as_slice(), 0, 6);
        is_proxy = crate::text::chars_eq(pre.as_slice(), p.as_slice());
    }
    !is_proxy && !chars_eq_str(c.as_slice(), "te") && !chars_eq_str(c.as_slice(), "host") && !(
    drop_auth && chars_eq_str(c.as_slice(), "authorization"))
}

/// The headers that are forwarded unchanged.
fn filtered(headers: &Vec<HeaderField>, add: bool) -> (out: Vec<HeaderField>)
    ensures
        hview(out@) == filter_headers(hview(headers@), add),
{
    let mut out: Vec<HeaderField> = Vec::new();
    let mut i: usize = 0;
    while i < headers.len()
        invariant
            i <= headers@.len(),
            hview(out@) == filter_headers(hview(headers@).subrange(0, i as int), add),
        decreases headers@.len() - i,
    {
        let ghost pre = hview(headers@).subrange(0, i as int);
        assert(hview(headers@).subrange(0, i + 1).drop_last() =~= pre);
        if name_kept(headers[i].name.as_str(), add) {
            let h = HeaderField { name: headers[i].name.clone(), value: headers[i].value.clone() };
            out.push(h);
            assert(hview(out@) =~= filter_headers(hview(headers@).subrange(0, i + 1), add));
        } else {
            assert(hview(out@) =~= filter_headers(hview(headers@).subrange(0, i + 1), add));
        }
        i = i + 1;
    }
    assert(hview(headers@).subrange(0, i as int) =~= hview(headers@));
    out
}

/// Scheme, host and port of the request's target.
fn resolve_target(uri: &ParsedUri, headers: &Vec<HeaderField>) -> (r: Result<
    (String, HostName, Option<u16>),
    Error,
>)
    ensures
        match r {
            Ok(t) => target_of(uri@, hview(headers@)) is Ok && target_of(
                uri@,
                hview(headers@),
            )->Ok_0 == (t.0@, t.1@, t.2),
            Err(e) => target_of(uri@, hview(headers@)) is Err && target_of(
                uri@,
                hview(headers@),
            )->Err_0 == e,
        },
{
    match &uri.scheme {
        Some(s) => {
            let sc = chars_of(s.as_str());
            if !chars_eq_str(sc.as_slice(), "http") && !chars_eq_str(sc.as_slice(), "https") {
                return Err(Error::Config);
            }
            match &uri.hostname {
                Some(h) => {
                    Ok((s.clone(), h.clone_host(), uri.port))
                },
                None => return Err(Error::Config),
            }
        },
        None => {
            let v = match get_header(headers, "host") {
                Some(v) => v,
                None => return Err(Error::Config),
            };
            let t = match visible_text(v.as_slice()) {
                Some(t) => t,
                None => return Err(Error::Config),
            };
            let ts = string_of(t.as_slice());
            match SocketAddr::parse_host_header(ts.as_str()) {
                Err(e) => return Err(Error::Addr(e)),
                Ok((h, p)) => {
                    let hc = vec!['h', 't', 't', 'p'];
                    proof {
                        reveal_strlit("http");
                    }
                    assert(hc@ =~= "http"@);
                    Ok((string_of(hc.as_slice()), h, p))
                },
            }
        },
    }
}

/// Whether `p` is the default port of `scheme`.
fn is_default_port(scheme: &str, p: u16) -> (r: bool)
    ensures
        r == (default_port(scheme@) == Some(p)),
{
    proof {
        reveal_strlit("http");
        reveal_strlit("https");
    }
    let sc = chars_of(scheme);
    if chars_eq_str(sc.as_slice(), "http") {
        p == 80
    } else if chars_eq_str(sc.as_slice(), "https") {
        p == 443
    } else {
        false
    }
}

/// Rewrites a proxied request for its upstream: checks the scheme, takes the
/// target from the URI or the `Host` header, turns URI credentials into
/// `Authorization` when none is set, keeps `TE` only as `trailers`, drops
/// every `proxy-*` header, rebuilds `Host` and leaves only path and query
/// in the URI.
#[verifier::spinoff_prover]
pub fn prepare_forward(uri: &ParsedUri, headers: &Vec<HeaderField>) -> (r: Result<Forward, Error>)
    ensures
        match r {
            Ok(f) => forward_spec(uri@, hview(headers@)) == Ok::<ForwardModel, Error>(f@),
            Err(e) => forward_spec(uri@, hview(headers@)) == Err::<ForwardModel, Error>(e),
        },
{
    let (scheme, hostname, port) = match resolve_target(uri, headers) {
        Ok(t) => t,
        Err(e) => return Err(e),
    };
    let add = uri.scheme.is_some() && get_header(headers, "authorization").is_none()
        && uri.user.is_some();
    let mut out = filtered(headers, add);
    let ghost base = hview(out@);
    proof {
        reveal_strlit("http");
        reveal_strlit("https");
    }
    if add {
        let user = uri.user.as_ref().unwrap();
        let mut cred = chars_of(user.as_str());
        assert(cred@ == uri@.user.unwrap());
        if let Some(p) = &uri.password {
            cred.push(':');
            let pc = chars_of(p.as_str());
            push_all(&mut cred, pc.as_slice());
        }
        assert(cred@ =~= uri@.user.unwrap() + match uri@.password {
            Some(p) => seq![':'] + p,
            None => Seq::empty(),
        });
        let cs = string_of(cred.as_slice());
        let enc = base64_encode(cs.as_str());
        let mut v = chars_of("Basic ");
        let ec = chars_of(enc.as_str());
        push_all(&mut v, ec.as_slice());
        assert(v@ =~= crate::forward::auth_value(uri@));
        out.push(HeaderField { name: "authorization".to_owned(), value: ascii_to_bytes(v.as_slice()) });
    }
    let ghost with_auth = hview(out@);
    let te_keep = match get_header(headers, "te") {
        Some(v) => te_lists_trailers(v.as_slice()),
        None => false,
    };
    if te_keep {
        let tc = chars_of("trailers");
        out.push(HeaderField { name: "te".to_owned(), value: ascii_to_bytes(tc.as_slice()) });
    }
    let ghost with_te = hview(out@);
    let is_default = match port {
        Some(p) => is_default_port(scheme.as_str(), p),
        None => false,
    };
    let kept_port: Option<u16> = if is_default {
        None
    } else {
        port
    };
    let hs = hostname.to_string_url_style();
    let mut hvc = chars_of(hs.as_str());
    if let Some(p) = kept_port {
        hvc.push(':');
        push_dec(&mut hvc, p as u64);
    }
    assert(hvc@ =~= host_value(hostname@, kept_port));
    out.push(HeaderField { name: "host".to_owned(), value: ascii_to_bytes(hvc.as_slice()) });
    let pq = uri.path_and_query();
    proof {
        let auth = if add {
            seq![("authorization"@, ascii_bytes(auth_value(uri@)))]
        } else {
            Seq::empty()
        };
        assert(with_auth =~= base + auth);
        let te = if te_keep {
            seq![("te"@, ascii_bytes("trailers"@))]
        } else {
            Seq::empty()
        };
        assert(with_te =~= base + auth + te);
        assert(hview(out@) =~= base + auth + te + seq![
            ("host"@, ascii_bytes(host_value(hostname@, kept_port))),
        ]);
    }
    Ok(Forward { scheme, hostname, port: kept_port, headers: out, path_and_query: pq })
}

/// Every header that survives filtering is one that is kept.
proof fn lemma_filter_kept(hs: Seq<(Seq<char>, Seq<u8>)>, drop_auth: bool)
    ensures
        forall|i: int|
            0 <= i < filter_headers(hs, drop_auth).len() ==> kept(
                #[trigger] filter_headers(hs, drop_auth)[i].0,
                drop_auth,
            ),
    decreases hs.len(),
{
    if hs.len() > 0 {
        let prev = filter_headers(hs.drop_last(), drop_auth);
        lemma_filter_kept(hs.drop_last(), drop_auth);
        let r = filter_headers(hs, drop_auth);
        assert forall|i: int| 0 <= i < r.len() implies kept(#[trigger] r[i].0, drop_auth) by {
            if i < prev.len() {
                assert(r[i] == prev[i]);
            }
        }
    }
}

/// After the rewrite no header name starts with `proxy-`, `TE` is either
/// absent or exactly `trailers`, the only `Host` header is the target host
/// (IPv6 in brackets, the port only when it is not the scheme's default), and
/// the request line carries only the path and query.
pub proof fn lemma_hop_by_hop(u: UriModel, hs: Seq<(Seq<char>, Seq<u8>)>)
    requires
        forward_spec(u, hs) is Ok,
    ensures
        ({
            let f = forward_spec(u, hs)->Ok_0;
            &&& forall|i: int|
                0 <= i < f.headers.len() ==> !starts_with(#[trigger] f.headers[i].0, "proxy-"@)
            &&& forall|i: int|
                0 <= i < f.headers.len() && #[trigger] f.headers[i].0 == "te"@ ==> f.headers[i].1
                    == ascii_bytes("trailers"@)
            &&& forall|i: int|
                0 <= i < f.headers.len() && #[trigger] f.headers[i].0 == "host"@ ==> f.headers[i].1
                    == ascii_bytes(host_value(f.hostname, f.port))
            &&& f.port == kept_port(f.scheme, target_of(u, hs)->Ok_0.2)
            &&& f.path_and_query == path_and_query_text(u)
        }),
{
    reveal_strlit("proxy-");
    reveal_strlit("te");
    reveal_strlit("host");
    reveal_strlit("authorization");
    let f = forward_spec(u, hs)->Ok_0;
    let add = adds_auth(u, hs);
    let base = filter_headers(hs, add);
    lemma_filter_kept(hs, add);
    assert forall|i: int| 0 <= i < f.headers.len() implies !starts_with(
        #[trigger] f.headers[i].0,
        "proxy-"@,
    ) && (f.headers[i].0 == "te"@ ==> f.headers[i].1 == ascii_bytes("trailers"@)) && (
    f.headers[i].0 == "host"@ ==> f.headers[i].1 == ascii_bytes(host_value(f.hostname, f.port))) by {
        if i < base.len() {
            assert(f.headers[i] == base[i]);
            assert(kept(base[i].0, add));
        } else {
            let n = f.headers[i].0;
            assert(n == "authorization"@ || n == "te"@ || n == "host"@);
            if n == "authorization"@ {
                assert(n[0] != "proxy-"@[0]);
                assert(n.subrange(0, 6)[0] == n[0]);
            }
            if n == "host"@ {
                assert(n.len() < 6);
            }
        }
    }
}

} // verus!
