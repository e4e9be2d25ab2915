use base64::Engine;
use crate::addr::{Host, SocketAddr, parse_socket_spec, socket_text};
use crate::config::ProxyConfig;
use crate::error::Error;
use crate::text::{chars_of, push_all, string_of};
use vstd::prelude::*;
use vstd::utf8::encode_utf8;

verus! {

/// A digit of the standard base64 alphabet: `A`–`Z`, `a`–`z`, `0`–`9`, `+`, `/`.
pub open spec fn base64_digit(v: nat) -> char {
    if v < 26 {
        (v + 65) as char
    } else if v < 52 {
        (v - 26 + 97) as char
    } else if v < 62 {
        (v - 52 + 48) as char
    } else if v == 62 {
        '+'
    } else {
        '/'
    }
}

/// Standard base64 with padding: every three bytes become four digits of
/// six bits each; a last group of one or two bytes is padded with `=`.
pub open spec fn base64_of(b: Seq<u8>) -> Seq<char>
    decreases b.len(),
{
    if b.len() == 0 {
        Seq::empty()
    } else if b.len() == 1 {
        seq![base64_digit(b[0] as nat / 4), base64_digit((b[0] as nat % 4) * 16), '=', '=']
    } else if b.len() == 2 {
        seq![
            base64_digit(b[0] as nat / 4),
            base64_digit((b[0] as nat % 4) * 16 + b[1] as nat / 16),
            base64_digit((b[1] as nat % 16) * 4),
            '=',
        ]
    } else {
        seq![
            base64_digit(b[0] as nat / 4),
            base64_digit((b[0] as nat % 4) * 16 + b[1] as nat / 16),
            base64_digit((b[1] as nat % 16) * 4 + b[2] as nat / 64),
            base64_digit(b[2] as nat % 64),
        ] + base64_of(b.subrange(3, b.len() as int))
    }
}

/// Relies on `base64::engine::general_purpose::STANDARD.encode`: the
/// standard, padded base64 text of the UTF-8 bytes of `s`.
#[verifier::external_body]
pub(crate) fn base64_encode(s: &str) -> (r: String)
    ensures
        r@ == base64_of(encode_utf8(s@)),
{
    base64::engine::general_purpose::STANDARD.encode(s)
}

/// An HTTP proxy: its address and, when credentials are configured, the
/// base64 of `user:password` for `Proxy-Authorization`.
#[derive(Clone, Debug)]
pub struct HttpProxy {
    pub addr: SocketAddr,
    pub auth: Option<String>,
}

pub open spec fn or_empty(o: Option<String>) -> Seq<char> {
    match o {
        Some(s) => s@,
        None => Seq::empty(),
    }
}

/// `user:password`, each part empty when not set.
pub open spec fn basic_credentials(user: Option<String>, password: Option<String>) -> Seq<char> {
    or_empty(user) + seq![':'] + or_empty(password)
}

/// A header: a lower-case name and the raw value bytes.
#[derive(Clone, Debug)]
pub struct HeaderField {
    pub name: String,
    pub value: Vec<u8>,
}

pub open spec fn ascii_bytes(s: Seq<char>) -> Seq<u8> {
    Seq::new(s.len(), |i: int| s[i] as u8)
}

/// Bytes of an ASCII string.
pub fn ascii_to_bytes(s: &[char]) -> (r: Vec<u8>)
    ensures
        r@ == ascii_bytes(s@),
{
    let mut r: Vec<u8> = Vec::new();
    let mut i: usize = 0;
    while i < s.len()
        invariant
            i <= s@.len(),
            r@ == ascii_bytes(s@.subrange(0, i as int)),
        decreases s@.len() - i,
    {
        r.push(s[i] as u8);
        i = i + 1;
        assert(r@ =~= ascii_bytes(s@.subrange(0, i as int)));
    }
    assert(s@.subrange(0, i as int) =~= s@);
    r
}

pub fn header(name: &str, value: &[char]) -> (r: HeaderField)
    ensures
        r.name@ == name@,
        r.value@ == ascii_bytes(value@),
{
    HeaderField { name: name.to_owned(), value: ascii_to_bytes(value) }
}

pub open spec fn basic_value(cred: Seq<char>) -> Seq<char> {
    "Basic "@ + cred
}

impl HttpProxy {
    /// Takes the server address from the configuration; the credentials
    /// count only when user or password is non-empty.
    pub fn new(conf: &ProxyConfig) -> (r: Result<HttpProxy, Error>)
        ensures
            match parse_socket_spec(conf.server@) {
                Ok((h, p)) => r is Ok && r->Ok_0.addr.hostname@ == h && r->Ok_0.addr.port == p
                    && match r->Ok_0.auth {
                    Some(a) => basic_credentials(conf.user, conf.password).len() > 1 && a@
                        == base64_of(encode_utf8(basic_credentials(conf.user, conf.password))),
                    None => basic_credentials(conf.user, conf.password).len() <= 1,
                },
                Err(e) => r == Err::<HttpProxy, Error>(Error::Addr(e)),
            },
    {
        let mut auth: Vec<char> = Vec::new();
        if let Some(user) = &conf.user {
            let u = chars_of(user.as_str());
            push_all(&mut auth, u.as_slice());
        }
        auth.push(':');
        if let Some(password) = &conf.password {
            let p = chars_of(password.as_str());
            push_all(&mut auth, p.as_slice());
        }
        assert(auth@ =~= basic_credentials(conf.user, conf.password));
        let auth = if auth.len() > 1 {
            let s = string_of(auth.as_slice());
            Some(base64_encode(s.as_str()))
        } else {
            None
        };
        let addr = match SocketAddr::from_str(conf.server.as_str()) {
            Ok(a) => a,
            Err(e) => return Err(Error::Addr(e)),
        };
        Ok(HttpProxy { addr, auth })
    }

    /// The headers of the CONNECT request for `target`: `host` is the target,
    /// both connection headers ask for keep-alive, and the credentials go in
    /// `proxy-authorization` when there are any.
    pub fn connect_headers(&self, target: &SocketAddr) -> (r: Vec<HeaderField>)
        ensures
            r@.len() == (if self.auth is Some {
                4int
            } else {
                3int
            }),
            r@[0].name@ == "host"@ && r@[0].value@ == ascii_bytes(
                socket_text(target.hostname@, target.port),
            ),
            r@[1].name@ == "connection"@ && r@[1].value@ == ascii_bytes("keep-alive"@),
            r@[2].name@ == "proxy-connection"@ && r@[2].value@ == ascii_bytes("keep-alive"@),
            self.auth is Some ==> r@[3].name@ == "proxy-authorization"@ && r@[3].value@
                == ascii_bytes(basic_value(self.auth->Some_0@)),
    {
        let t = target.to_string();
        let tc = chars_of(t.as_str());
        let ka = chars_of("keep-alive");
        let mut r: Vec<HeaderField> = Vec::new();
        r.push(header("host", tc.as_slice()));
        r.push(header("connection", ka.as_slice()));
        r.push(header("proxy-connection", ka.as_slice()));
        if let Some(a) = &self.auth {
            let mut v = chars_of("Basic ");
            let ac = chars_of(a.as_str());
            push_all(&mut v, ac.as_slice());
            r.push(header("proxy-authorization", v.as_slice()));
        }
        r
    }

    /// The value of `proxy-authorization`, when credentials are configured.
    pub fn authorization(&self) -> (r: Option<String>)
        ensures
            match r {
                Some(v) => self.auth is Some && v@ == basic_value(self.auth->Some_0@),
                None => self.auth is None,
            },
    {
        match &self.auth {
            Some(a) => {
                let mut v = chars_of("Basic ");
                let ac = chars_of(a.as_str());
                push_all(&mut v, ac.as_slice());
                Some(string_of(v.as_slice()))
            },
            None => None,
        }
    }
}

/// A CONNECT succeeds only with a 2xx status.
pub fn connect_succeeded(status: u16) -> (r: Result<(), Error>)
    ensures
        r is Ok <==> 200 <= status <= 299,
        r is Err ==> r == Err::<(), Error>(Error::Protocol),
{
    if 200 <= status && status <= 299 {
        Ok(())
    } else {
        Err(Error::Protocol)
    }
}

} // verus!
