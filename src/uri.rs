use crate::addr::{
    Host, HostName, SocketAddr, host_url_text, lemma_host_header_round_trip, parse_host_header_spec,
    port_suffix, valid_host,
};
use crate::error::Error;
use crate::num::{dec_text, has_no, push_dec};
use crate::text::{chars_of, find, push_all, rfind, string_of, sub_chars};
use vstd::prelude::*;
use vstd::utf8::{
    decode_utf8, encode_scalar, encode_utf8, encode_utf8_decode_utf8, encode_utf8_valid_utf8,
    valid_utf8,
};

verus! {

/// A request-line URI taken apart.
#[derive(Clone, Debug)]
pub struct ParsedUri {
    pub scheme: Option<String>,
    pub user: Option<String>,
    pub password: Option<String>,
    pub hostname: Option<HostName>,
    pub port: Option<u16>,
    pub path: String,
    pub query: Option<String>,
}

/// The mathematical value of a `ParsedUri`.
pub struct UriModel {
    pub scheme: Option<Seq<char>>,
    pub user: Option<Seq<char>>,
    pub password: Option<Seq<char>>,
    pub hostname: Option<Host>,
    pub port: Option<u16>,
    pub path: Seq<char>,
    pub query: Option<Seq<char>>,
}

pub open spec fn opt_str(o: Option<String>) -> Option<Seq<char>> {
    match o {
        Some(s) => Some(s@),
        None => None,
    }
}

pub open spec fn opt_host(o: Option<HostName>) -> Option<Host> {
    match o {
        Some(h) => Some(h@),
        None => None,
    }
}

impl View for ParsedUri {
    type V = UriModel;

    open spec fn view(&self) -> UriModel {
        UriModel {
            scheme: opt_str(self.scheme),
            user: opt_str(self.user),
            password: opt_str(self.password),
            hostname: opt_host(self.hostname),
            port: self.port,
            path: self.path@,
            query: opt_str(self.query),
        }
    }
}

pub open spec fn is_ascii_alnum(b: u8) -> bool {
    (48 <= b <= 57) || (65 <= b <= 90) || (97 <= b <= 122)
}

pub open spec fn upper_hex(d: u8) -> char {
    if d < 10 {
        (d + 48) as char
    } else {
        (d + 55) as char
    }
}

/// Percent-encoding with the non-alphanumeric set: ASCII letters and digits
/// stay, every other byte becomes `%XX` in upper-case hex.
pub open spec fn pct_encode_bytes(b: Seq<u8>) -> Seq<char>
    decreases b.len(),
{
    if b.len() == 0 {
        Seq::empty()
    } else {
        let c = b[0];
        let head = if is_ascii_alnum(c) {
            seq![c as char]
        } else {
            seq!['%', upper_hex(c / 16), upper_hex(c % 16)]
        };
        head + pct_encode_bytes(b.subrange(1, b.len() as int))
    }
}

pub open spec fn is_hex_byte(b: u8) -> bool {
    (48 <= b <= 57) || (65 <= b <= 70) || (97 <= b <= 102)
}

pub open spec fn hex_byte_value(b: u8) -> u8 {
    if 48 <= b <= 57 {
        (b - 48) as u8
    } else if 65 <= b <= 70 {
        (b - 55) as u8
    } else {
        (b - 87) as u8
    }
}

/// Percent-decoding: each `%` followed by two hex digits becomes that byte;
/// every other byte stays.
pub open spec fn pct_decode_bytes(b: Seq<u8>) -> Seq<u8>
    decreases b.len(),
{
    if b.len() == 0 {
        Seq::empty()
    } else if b.len() >= 3 && b[0] == 37 && is_hex_byte(b[1]) && is_hex_byte(b[2]) {
        seq![(hex_byte_value(b[1]) * 16 + hex_byte_value(b[2])) as u8] + pct_decode_bytes(
            b.subrange(3, b.len() as int),
        )
    } else {
        seq![b[0]] + pct_decode_bytes(b.subrange(1, b.len() as int))
    }
}

/// The text percent-decoding `s` gives, if its bytes are UTF-8.
pub open spec fn pct_decoded(s: Seq<char>) -> Option<Seq<char>> {
    let b = pct_decode_bytes(encode_utf8(s));
    if valid_utf8(b) {
        Some(decode_utf8(b))
    } else {
        None
    }
}

/// Relies on `percent_encoding::utf8_percent_encode` with `NON_ALPHANUMERIC`:
/// the UTF-8 bytes of `s`, letters and digits kept, all others as `%XX`.
#[verifier::external_body]
fn percent_encode(s: &str) -> (r: String)
    ensures
        r@ == pct_encode_bytes(encode_utf8(s@)),
{
    percent_encoding::utf8_percent_encode(s, percent_encoding::NON_ALPHANUMERIC).to_string()
}

/// Relies on `percent_encoding::percent_decode_str` and `decode_utf8`: the
/// decoded bytes as text, or a refusal when they are not UTF-8.
#[verifier::external_body]
fn percent_decode(s: &str) -> (r: Option<String>)
    ensures
        match r {
            Some(t) => pct_decoded(s@) == Some(t@),
            None => pct_decoded(s@) is None,
        },
{
    match percent_encoding::percent_decode_str(s).decode_utf8() {
        Ok(t) => Some(t.into_owned()),
        Err(_) => None,
    }
}

/// The userinfo before the last `@`, if any, and the host part after it.
pub open spec fn split_authority(a: Seq<char>) -> (Option<Seq<char>>, Seq<char>) {
    if exists|i: int| 0 <= i < a.len() && a[i] == '@' {
        let j = choose|j: int|
            0 <= j < a.len() && a[j] == '@' && forall|k: int| j < k < a.len() ==> a[k] != '@';
        (Some(a.subrange(0, j)), a.subrange(j + 1, a.len() as int))
    } else {
        (None, a)
    }
}

/// The user before the first `:` and the password after it, if any.
pub open spec fn split_userinfo(u: Seq<char>) -> (Seq<char>, Option<Seq<char>>) {
    if exists|i: int| 0 <= i < u.len() && u[i] == ':' {
        let j = choose|j: int| 0 <= j < u.len() && u[j] == ':' && forall|k: int| 0 <= k < j ==> u[k] != ':';
        (u.subrange(0, j), Some(u.subrange(j + 1, u.len() as int)))
    } else {
        (u, None)
    }
}

/// User, password, host and port from an authority.
pub open spec fn parse_authority(a: Seq<char>) -> Result<
    (Option<Seq<char>>, Option<Seq<char>>, Host, Option<u16>),
    Error,
> {
    let (ui, host) = split_authority(a);
    let creds: Result<(Option<Seq<char>>, Option<Seq<char>>), Error> = match ui {
        None => Ok((None, None)),
        Some(u) => {
            let (un, pw) = split_userinfo(u);
            match pct_decoded(un) {
                None => Err(Error::Config),
                Some(du) => match pw {
                    None => Ok((Some(du), None)),
                    Some(p) => match pct_decoded(p) {
                        None => Err(Error::Config),
                        Some(dp) => Ok((Some(du), Some(dp))),
                    },
                },
            }
        },
    };
    match creds {
        Err(e) => Err(e),
        Ok((user, password)) => match parse_host_header_spec(host) {
            Err(e) => Err(Error::Addr(e)),
            Ok((h, port)) => Ok((user, password, h, port)),
        },
    }
}

/// A URI from the parts a request line gives: scheme, authority, path and
/// query. With a scheme a host is required; without one the URI is either
/// authority-only (`host:port`, as CONNECT uses) or a non-empty path. The
/// path defaults to `/` and an empty query counts as none.
pub open spec fn parse_uri(
    scheme: Option<Seq<char>>,
    authority: Option<Seq<char>>,
    path: Seq<char>,
    query: Option<Seq<char>>,
) -> Result<UriModel, Error> {
    let auth: Result<(Option<Seq<char>>, Option<Seq<char>>, Option<Host>, Option<u16>), Error> =
        match authority {
        None => Ok((None, None, None, None)),
        Some(a) => match parse_authority(a) {
            Err(e) => Err(e),
            Ok((u, p, h, port)) => Ok((u, p, Some(h), port)),
        },
    };
    match auth {
        Err(e) => Err(e),
        Ok((user, password, hostname, port)) => if scheme is Some && hostname is None {
            Err(Error::Config)
        } else if scheme is None && (user is Some || (hostname is Some && (port is None
            || path.len() > 0 || query is Some)) || (hostname is None && path.len() == 0)) {
            Err(Error::Config)
        } else {
            Ok(
                UriModel {
                    scheme,
                    user,
                    password,
                    hostname,
                    port,
                    path: if path.len() == 0 {
                        seq!['/']
                    } else {
                        path
                    },
                    query: match query {
                        Some(q) => if q.len() == 0 {
                            None
                        } else {
                            Some(q)
                        },
                        None => None,
                    },
                },
            )
        },
    }
}

/// The authority: `[user[:password]@]host[:port]`, credentials
/// percent-encoded and an IPv6 host in brackets.
pub open spec fn authority_text(u: UriModel) -> Seq<char> {
    let creds = match u.user {
        Some(us) => pct_encode_bytes(encode_utf8(us)) + match u.password {
            Some(p) => seq![':'] + pct_encode_bytes(encode_utf8(p)),
            None => Seq::empty(),
        } + seq!['@'],
        None => Seq::empty(),
    };
    let port = match u.port {
        Some(p) => seq![':'] + dec_text(p as nat),
        None => Seq::empty(),
    };
    creds + host_url_text(u.hostname.unwrap()) + port
}

/// `path`, then `?query` when there is a query.
pub open spec fn path_and_query_text(u: UriModel) -> Seq<char> {
    match u.query {
        Some(q) => u.path + seq!['?'] + q,
        None => u.path,
    }
}

/// Reads the userinfo and host of an authority.
#[verifier::spinoff_prover]
fn authority_parts(a: &[char]) -> (r: Result<
    (Option<String>, Option<String>, HostName, Option<u16>),
    Error,
>)
    ensures
        match r {
            Ok((u, p, h, port)) => parse_authority(a@) == Ok::<
                (Option<Seq<char>>, Option<Seq<char>>, Host, Option<u16>),
                Error,
            >((opt_str(u), opt_str(p), h@, port)),
            Err(e) => parse_authority(a@) == Err::<
                (Option<Seq<char>>, Option<Seq<char>>, Host, Option<u16>),
                Error,
            >(e),
        },
{
    let n = a.len();
    let mut user: Option<String> = None;
    let mut password: Option<String> = None;
    let host: Vec<char>;
    match rfind(a, '@') {
        Some(j) => {
            let ghost cj = choose|j: int|
                0 <= j < a@.len() && a@[j] == '@' && forall|k: int| j < k < a@.len() ==> a@[k] != '@';
            assert(a@[j as int] == '@');
            assert(cj == j as int) by {
                if cj < j {
                    assert(a@[j as int] != '@');
                } else if cj > j {
                    assert(a@[cj] != '@');
                }
            }
            host = sub_chars(a, j + 1, n);
            let ui = sub_chars(a, 0, j);
            let un: Vec<char>;
            let mut pw: Option<Vec<char>> = None;
            match find(ui.as_slice(), ':') {
                Some(i) => {
                    let ghost ci = choose|j: int|
                        0 <= j < ui@.len() && ui@[j] == ':' && forall|k: int| 0 <= k < j ==> ui@[k] != ':';
                    assert(ui@[i as int] == ':');
                    assert(ci == i as int) by {
                        if ci < i {
                            assert(ui@[ci] != ':');
                        } else if ci > i {
                            assert(ui@[i as int] != ':');
                        }
                    }
                    un = sub_chars(ui.as_slice(), 0, i);
                    pw = Some(sub_chars(ui.as_slice(), i + 1, ui.len()));
                },
                None => {
                    un = sub_chars(ui.as_slice(), 0, ui.len());
                    assert(un@ =~= ui@);
                },
            }
            let uns = string_of(un.as_slice());
            match percent_decode(uns.as_str()) {
                None => return Err(Error::Config),
                Some(du) => user = Some(du),
            }
            match pw {
                None => {},
                Some(p) => {
                    let ps = string_of(p.as_slice());
                    match percent_decode(ps.as_str()) {
                        None => return Err(Error::Config),
                        Some(dp) => password = Some(dp),
                    }
                },
            }
        },
        None => {
            host = sub_chars(a, 0, n);
            assert(host@ =~= a@);
        },
    }
    let hs = string_of(host.as_slice());
    match SocketAddr::parse_host_header(hs.as_str()) {
        Err(e) => Err(Error::Addr(e)),
        Ok((h, port)) => Ok((user, password, h, port)),
    }
}

impl ParsedUri {
    /// Takes apart a URI given as its scheme, authority, path and query.
    #[verifier::spinoff_prover]
    pub fn from_parts(
        scheme: Option<&str>,
        authority: Option<&str>,
        path: &str,
        query: Option<&str>,
    ) -> (r: Result<ParsedUri, Error>)
        ensures
            match r {
                Ok(u) => parse_uri(
                    match scheme {
                        Some(s) => Some(s@),
                        None => None,
                    },
                    match authority {
                        Some(s) => Some(s@),
                        None => None,
                    },
                    path@,
                    match query {
                        Some(s) => Some(s@),
                        None => None,
                    },
                ) == Ok::<UriModel, Error>(u@),
                Err(e) => parse_uri(
                    match scheme {
                        Some(s) => Some(s@),
                        None => None,
                    },
                    match authority {
                        Some(s) => Some(s@),
                        None => None,
                    },
                    path@,
                    match query {
                        Some(s) => Some(s@),
                        None => None,
                    },
                ) == Err::<UriModel, Error>(e),
            },
    {
        let mut user: Option<String> = None;
        let mut password: Option<String> = None;
        let mut hostname: Option<HostName> = None;
        let mut port: Option<u16> = None;
        if let Some(a) = authority {
            let ac = chars_of(a);
            match authority_parts(ac.as_slice()) {
                Err(e) => return Err(e),
                Ok((u, p, h, pt)) => {
                    user = u;
                    password = p;
                    hostname = Some(h);
                    port = pt;
                },
            }
        }
        let path_empty = path.is_empty();
        if scheme.is_some() && hostname.is_none() {
            return Err(Error::Config);
        }
        if scheme.is_none() {
            if user.is_some() {
                return Err(Error::Config);
            }
            if hostname.is_some() && (port.is_none() || !path_empty || query.is_some()) {
                return Err(Error::Config);
            }
            if hostname.is_none() && path_empty {
                return Err(Error::Config);
            }
        }
        let path_s: String = if path_empty {
            let slash = vec!['/'];
            assert(slash@ =~= seq!['/']);
            string_of(slash.as_slice())
        } else {
            path.to_owned()
        };
        let query_s: Option<String> = match query {
            Some(q) => if q.is_empty() {
                None
            } else {
                Some(q.to_owned())
            },
            None => None,
        };
        let scheme_s: Option<String> = match scheme {
            Some(s) => Some(s.to_owned()),
            None => None,
        };
        let r = ParsedUri {
            scheme: scheme_s,
            user,
            password,
            hostname,
            port,
            path: path_s,
            query: query_s,
        };
        Ok(r)
    }

    pub fn scheme(&self) -> (r: Option<&str>)
        ensures
            match r {
                Some(s) => self.scheme is Some && s@ == self.scheme->Some_0@,
                None => self.scheme is None,
            },
    {
        match &self.scheme {
            Some(s) => Some(s.as_str()),
            None => None,
        }
    }

    pub fn user(&self) -> (r: Option<&str>)
        ensures
            match r {
                Some(s) => self.user is Some && s@ == self.user->Some_0@,
                None => self.user is None,
            },
    {
        match &self.user {
            Some(s) => Some(s.as_str()),
            None => None,
        }
    }

    pub fn password(&self) -> (r: Option<&str>)
        ensures
            match r {
                Some(s) => self.password is Some && s@ == self.password->Some_0@,
                None => self.password is None,
            },
    {
        match &self.password {
            Some(s) => Some(s.as_str()),
            None => None,
        }
    }

    pub fn hostname(&self) -> (r: Option<&HostName>)
        ensures
            r == match &self.hostname {
                Some(h) => Some(h),
                None => None::<&HostName>,
            },
    {
        match &self.hostname {
            Some(h) => Some(h),
            None => None,
        }
    }

    pub fn path(&self) -> (r: &str)
        ensures
            r@ == self.path@,
    {
        self.path.as_str()
    }

    pub fn query(&self) -> (r: Option<&str>)
        ensures
            match r {
                Some(s) => self.query is Some && s@ == self.query->Some_0@,
                None => self.query is None,
            },
    {
        match &self.query {
            Some(s) => Some(s.as_str()),
            None => None,
        }
    }

    /// The authority to emit, when there is a host.
    pub fn authority(&self) -> (r: Option<String>)
        ensures
            match r {
                Some(a) => self.hostname is Some && a@ == authority_text(self@),
                None => self.hostname is None,
            },
    {
        let h = match &self.hostname {
            Some(h) => h,
            None => return None,
        };
        let mut v: Vec<char> = Vec::new();
        if let Some(u) = &self.user {
            let eu = percent_encode(u.as_str());
            let c = chars_of(eu.as_str());
            push_all(&mut v, c.as_slice());
            if let Some(p) = &self.password {
                v.push(':');
                let ep = percent_encode(p.as_str());
                let c = chars_of(ep.as_str());
                push_all(&mut v, c.as_slice());
            }
            v.push('@');
        }
        let ghost creds = v@;
        let hs = h.to_string_url_style();
        let hc = chars_of(hs.as_str());
        push_all(&mut v, hc.as_slice());
        let ghost with_host = v@;
        if let Some(p) = self.port {
            v.push(':');
            push_dec(&mut v, p as u64);
        }
        proof {
            let port = match self.port {
                Some(p) => seq![':'] + dec_text(p as nat),
                None => Seq::empty(),
            };
            assert(v@ =~= with_host + port);
            let cr = match self@.user {
                Some(us) => pct_encode_bytes(encode_utf8(us)) + match self@.password {
                    Some(p) => seq![':'] + pct_encode_bytes(encode_utf8(p)),
                    None => Seq::empty(),
                } + seq!['@'],
                None => Seq::empty(),
            };
            assert(creds =~= cr);
            assert(authority_text(self@) == cr + host_url_text(h@) + port);
        }
        Some(string_of(v.as_slice()))
    }

    /// `path`, then `?query` when there is a query.
    pub fn path_and_query(&self) -> (r: String)
        ensures
            r@ == path_and_query_text(self@),
    {
        let mut v = chars_of(self.path.as_str());
        if let Some(q) = &self.query {
            v.push('?');
            let qc = chars_of(q.as_str());
            push_all(&mut v, qc.as_slice());
        }
        assert(v@ =~= path_and_query_text(self@));
        string_of(v.as_slice())
    }
}

proof fn lemma_encode_utf8_concat(a: Seq<char>, b: Seq<char>)
    ensures
        encode_utf8(a + b) == encode_utf8(a) + encode_utf8(b),
    decreases a.len(),
{
    if a.len() == 0 {
        assert(a + b =~= b);
        assert(encode_utf8(a) + encode_utf8(b) =~= encode_utf8(b));
    } else {
        lemma_encode_utf8_concat(a.drop_first(), b);
        assert((a + b).drop_first() =~= a.drop_first() + b);
        assert((a + b)[0] == a[0]);
        assert(encode_utf8(a + b) =~= encode_scalar(a[0] as u32) + (encode_utf8(a.drop_first())
            + encode_utf8(b)));
    }
}

proof fn lemma_low_bits(v: u32)
    requires
        v < 128,
    ensures
        (v & 0x7f) == v,
{
    assert((v & 0x7f) == v) by (bit_vector)
        requires
            v < 128,
    ;
}

proof fn lemma_encode_ascii(c: char)
    requires
        (c as u32) < 128,
    ensures
        encode_utf8(seq![c]) == seq![(c as u32) as u8],
{
    lemma_low_bits(c as u32);
    assert(seq![c].drop_first() =~= Seq::<char>::empty());
    assert(encode_utf8(seq![c]) =~= encode_scalar(c as u32) + encode_utf8(Seq::<char>::empty()));
}

pub open spec fn pct_safe(c: char) -> bool {
    ('0' <= c && c <= '9') || ('A' <= c && c <= 'Z') || ('a' <= c && c <= 'z') || c == '%'
}

/// Decoding what percent-encoding made gives back the bytes; the encoded
/// text holds only letters, digits and `%`.
#[verifier::spinoff_prover]
proof fn lemma_pct_bytes_round_trip(b: Seq<u8>)
    ensures
        pct_decode_bytes(encode_utf8(pct_encode_bytes(b))) == b,
        forall|i: int|
            0 <= i < pct_encode_bytes(b).len() ==> pct_safe(#[trigger] pct_encode_bytes(b)[i]),
    decreases b.len(),
{
    if b.len() > 0 {
        let c = b[0];
        let rest = b.subrange(1, b.len() as int);
        lemma_pct_bytes_round_trip(rest);
        let tail = pct_encode_bytes(rest);
        if is_ascii_alnum(c) {
            let head = seq![c as char];
            lemma_encode_ascii(c as char);
            lemma_encode_utf8_concat(head, tail);
            let eb = encode_utf8(head + tail);
            assert(eb == seq![c] + encode_utf8(tail));
            assert(eb[0] == c);
            assert(eb.subrange(1, eb.len() as int) =~= encode_utf8(tail));
            assert(pct_decode_bytes(eb) =~= seq![c] + pct_decode_bytes(encode_utf8(tail)));
            assert(seq![c] + rest =~= b);
            let e = pct_encode_bytes(b);
            assert(e == head + tail);
            assert forall|i: int| 0 <= i < e.len() implies pct_safe(#[trigger] e[i]) by {
                if i > 0 {
                    assert(e[i] == tail[i - 1]);
                }
            }
        } else {
            let h1 = upper_hex(c / 16);
            let h2 = upper_hex(c % 16);
            let head = seq!['%', h1, h2];
            assert(head =~= seq!['%'] + seq![h1] + seq![h2]);
            lemma_encode_ascii('%');
            lemma_encode_ascii(h1);
            lemma_encode_ascii(h2);
            lemma_encode_utf8_concat(seq!['%'], seq![h1]);
            lemma_encode_utf8_concat(seq!['%'] + seq![h1], seq![h2]);
            lemma_encode_utf8_concat(head, tail);
            let eb = encode_utf8(head + tail);
            let hb = seq![37u8, (h1 as u32) as u8, (h2 as u32) as u8];
            assert(encode_utf8(head) =~= hb);
            assert(eb == hb + encode_utf8(tail));
            assert(eb[0] == 37u8 && eb[1] == (h1 as u32) as u8 && eb[2] == (h2 as u32) as u8);
            assert(is_hex_byte(eb[1]) && is_hex_byte(eb[2]));
            assert(hex_byte_value(eb[1]) == c / 16 && hex_byte_value(eb[2]) == c % 16);
            assert((hex_byte_value(eb[1]) * 16 + hex_byte_value(eb[2])) as u8 == c);
            assert(eb.subrange(3, eb.len() as int) =~= encode_utf8(tail));
            assert(pct_decode_bytes(eb) =~= seq![c] + pct_decode_bytes(encode_utf8(tail)));
            assert(seq![c] + rest =~= b);
            let e = pct_encode_bytes(b);
            assert(e == head + tail);
            assert forall|i: int| 0 <= i < e.len() implies pct_safe(#[trigger] e[i]) by {
                if i >= 3 {
                    assert(e[i] == tail[i - 3]);
                }
            }
        }
    } else {
        assert(pct_decode_bytes(encode_utf8(pct_encode_bytes(b))) =~= b);
    }
}

proof fn lemma_pct_round_trip(t: Seq<char>)
    ensures
        pct_decoded(pct_encode_bytes(encode_utf8(t))) == Some(t),
        has_no(pct_encode_bytes(encode_utf8(t)), ':'),
        has_no(pct_encode_bytes(encode_utf8(t)), '@'),
{
    let e = pct_encode_bytes(encode_utf8(t));
    lemma_pct_bytes_round_trip(encode_utf8(t));
    encode_utf8_valid_utf8(t);
    encode_utf8_decode_utf8(t);
    assert forall|i: int| 0 <= i < e.len() implies #[trigger] e[i] != ':' && e[i] != '@' by {
        assert(pct_safe(e[i]));
    }
}

/// A URI that reads back as itself: with scheme and a valid host, a
/// password only beside a user, a non-empty path and no empty query.
pub open spec fn valid_uri(u: UriModel) -> bool {
    &&& u.scheme is Some
    &&& u.hostname is Some
    &&& valid_host(u.hostname.unwrap())
    &&& (u.password is Some ==> u.user is Some)
    &&& u.path.len() > 0
    &&& (u.query is Some ==> u.query.unwrap().len() > 0)
}

proof fn lemma_split_authority_at(ui: Seq<char>, hp: Seq<char>)
    requires
        has_no(hp, '@'),
    ensures
        split_authority(ui + seq!['@'] + hp) == (Some(ui), hp),
{
    let a = ui + seq!['@'] + hp;
    let j = ui.len() as int;
    assert(a[j] == '@');
    assert forall|k: int| j < k < a.len() implies a[k] != '@' by {
        assert(a[k] == hp[k - j - 1]);
    }
    let cj = choose|k: int|
        0 <= k < a.len() && a[k] == '@' && forall|m: int| k < m < a.len() ==> a[m] != '@';
    assert(cj == j) by {
        if cj < j {
        } else if cj > j {
            assert(a[cj] == hp[cj - j - 1]);
        }
    }
    assert(a.subrange(0, j) =~= ui);
    assert(a.subrange(j + 1, a.len() as int) =~= hp);
}

proof fn lemma_split_authority_none(hp: Seq<char>)
    requires
        has_no(hp, '@'),
    ensures
        split_authority(hp) == (None::<Seq<char>>, hp),
{
    assert(!exists|i: int| 0 <= i < hp.len() && hp[i] == '@');
}

proof fn lemma_split_userinfo_at(eu: Seq<char>, ep: Seq<char>)
    requires
        has_no(eu, ':'),
    ensures
        split_userinfo(eu + seq![':'] + ep) == (eu, Some(ep)),
{
    let ui = eu + seq![':'] + ep;
    let i0 = eu.len() as int;
    assert(ui[i0] == ':');
    assert forall|k: int| 0 <= k < i0 implies ui[k] != ':' by {
        assert(ui[k] == eu[k]);
    }
    let ci = choose|k: int|
        0 <= k < ui.len() && ui[k] == ':' && forall|m: int| 0 <= m < k ==> ui[m] != ':';
    assert(ci == i0) by {
        if ci < i0 {
            assert(ui[ci] == eu[ci]);
        } else if ci > i0 {
        }
    }
    assert(ui.subrange(0, i0) =~= eu);
    assert(ui.subrange(i0 + 1, ui.len() as int) =~= ep);
}

proof fn lemma_split_userinfo_none(eu: Seq<char>)
    requires
        has_no(eu, ':'),
    ensures
        split_userinfo(eu) == (eu, None::<Seq<char>>),
{
    assert(!exists|i: int| 0 <= i < eu.len() && eu[i] == ':');
}

/// The authority of a valid URI reads back as its credentials, host and port.
#[verifier::spinoff_prover]
#[verifier::rlimit(50)]
proof fn lemma_authority_round_trip(u: UriModel)
    requires
        valid_uri(u),
    ensures
        parse_authority(authority_text(u)) == Ok::<
            (Option<Seq<char>>, Option<Seq<char>>, Host, Option<u16>),
            Error,
        >((u.user, u.password, u.hostname.unwrap(), u.port)),
{
    let h = u.hostname.unwrap();
    let hp = host_url_text(h) + port_suffix(u.port);
    lemma_host_header_round_trip(h, u.port);
    let a = authority_text(u);
    match u.user {
        None => {
            assert(a =~= hp);
            lemma_split_authority_none(hp);
        },
        Some(us) => {
            let eu = pct_encode_bytes(encode_utf8(us));
            lemma_pct_round_trip(us);
            match u.password {
                Some(p) => {
                    let ep = pct_encode_bytes(encode_utf8(p));
                    lemma_pct_round_trip(p);
                    let ui = eu + seq![':'] + ep;
                    assert(a =~= ui + seq!['@'] + hp);
                    lemma_split_authority_at(ui, hp);
                    lemma_split_userinfo_at(eu, ep);
                },
                None => {
                    assert(a =~= eu + seq!['@'] + hp);
                    lemma_split_authority_at(eu, hp);
                    lemma_split_userinfo_none(eu);
                },
            }
        },
    }
}

/// Emitting a valid URI and reading back its scheme, authority, path and
/// query gives the same scheme, credentials, host, port, path and query.
pub proof fn lemma_uri_round_trip(u: UriModel)
    requires
        valid_uri(u),
    ensures
        parse_uri(u.scheme, Some(authority_text(u)), u.path, u.query) == Ok::<UriModel, Error>(u),
{
    lemma_authority_round_trip(u);
    let r = parse_uri(u.scheme, Some(authority_text(u)), u.path, u.query);
    assert(r is Ok);
    assert(r->Ok_0.query == u.query);
    assert(r->Ok_0 == u);
}

} // verus!
