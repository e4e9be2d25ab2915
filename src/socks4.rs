use crate::addr::{AddrError, Host, HostName, SocketAddr, parse_socket_spec};
use crate::config::ProxyConfig;
use crate::error::Error;
use crate::text::{chars_of, find, push_all};
use vstd::prelude::*;
use vstd::utf8::encode_utf8;

verus! {

/// A SOCKS4 / SOCKS4a proxy: its address and the user id it sends.
#[derive(Clone, Debug)]
pub struct Socks4Proxy {
    pub addr: SocketAddr,
    pub auth: Option<String>,
}

/// The user id: the user, then `:password` when a password is set.
pub open spec fn user_id_of(user: Option<String>, password: Option<String>) -> Seq<char> {
    let u = match user {
        Some(u) => u@,
        None => Seq::empty(),
    };
    match password {
        Some(p) => u + seq![':'] + p@,
        None => u,
    }
}

pub open spec fn opt_view(o: Option<String>) -> Option<Seq<char>> {
    match o {
        Some(s) => Some(s@),
        None => None,
    }
}

pub open spec fn has_nul(s: Seq<char>) -> bool {
    exists|i: int| 0 <= i < s.len() && s[i] == '\0'
}

/// An IPv4 target `0.0.0.x` with `x != 0`, which SOCKS4a reserves as its
/// placeholder.
pub open spec fn is_placeholder(o: Seq<u8>) -> bool {
    o[0] == 0 && o[1] == 0 && o[2] == 0 && o[3] != 0
}

/// The CONNECT request for `target` with the user id `auth`.
pub open spec fn socks4_request(target: Host, port: u16, auth: Option<Seq<char>>) -> Result<
    Seq<u8>,
    Error,
> {
    let user = match auth {
        Some(a) => encode_utf8(a),
        None => Seq::empty(),
    };
    let head = seq![4u8, 1u8, (port / 256) as u8, (port % 256) as u8];
    match target {
        Host::V4(o) => if is_placeholder(o) {
            Err(Error::Config)
        } else {
            Ok(head + o + user + seq![0u8])
        },
        Host::V6(_) => Err(Error::Unsupported),
        Host::Domain(d) => if has_nul(d) {
            Err(Error::Config)
        } else {
            Ok(head + seq![0u8, 0u8, 0u8, 1u8] + user + seq![0u8] + encode_utf8(d) + seq![0u8])
        },
    }
}

impl Socks4Proxy {
    /// Takes the server address and user id from the configuration; a user id
    /// holding NUL is refused.
    pub fn new(conf: &ProxyConfig) -> (r: Result<Socks4Proxy, Error>)
        ensures
            has_nul(user_id_of(conf.user, conf.password)) ==> r == Err::<Socks4Proxy, Error>(
                Error::Config,
            ),
            !has_nul(user_id_of(conf.user, conf.password)) ==> match parse_socket_spec(
                conf.server@,
            ) {
                Ok((h, p)) => r is Ok && r->Ok_0.addr.hostname@ == h && r->Ok_0.addr.port == p
                    && match r->Ok_0.auth {
                    Some(a) => a@ == user_id_of(conf.user, conf.password) && a@.len() > 0,
                    None => user_id_of(conf.user, conf.password).len() == 0,
                },
                Err(e) => r == Err::<Socks4Proxy, Error>(Error::Addr(e)),
            },
    {
        let mut auth: Vec<char> = Vec::new();
        if let Some(user) = &conf.user {
            let u = chars_of(user.as_str());
            push_all(&mut auth, u.as_slice());
        }
        if let Some(password) = &conf.password {
            auth.push(':');
            let p = chars_of(password.as_str());
            push_all(&mut auth, p.as_slice());
        }
        assert(auth@ =~= user_id_of(conf.user, conf.password));
        if find(auth.as_slice(), '\0').is_some() {
            return Err(Error::Config);
        }
        let addr = match SocketAddr::from_str(conf.server.as_str()) {
            Ok(a) => a,
            Err(e) => return Err(Error::Addr(e)),
        };
        let auth = if auth.len() > 0 {
            Some(crate::text::string_of(auth.as_slice()))
        } else {
            None
        };
        Ok(Socks4Proxy { addr, auth })
    }

    /// The CONNECT request to send for `target`. IPv6 targets, NUL in the
    /// domain, and IPv4 targets that collide with the SOCKS4a placeholder are
    /// refused before anything is sent.
    pub fn request(&self, target: &SocketAddr) -> (r: Result<Vec<u8>, Error>)
        ensures
            match r {
                Ok(b) => socks4_request(
                    target.hostname@,
                    target.port,
                    opt_view(self.auth),
                ) == Ok::<Seq<u8>, Error>(b@),
                Err(e) => socks4_request(
                    target.hostname@,
                    target.port,
                    opt_view(self.auth),
                ) == Err::<Seq<u8>, Error>(e),
            },
    {
        let port = target.port;
        let mut out: Vec<u8> = vec![4u8, 1u8, (port / 256) as u8, (port % 256) as u8];
        let ghost head = out@;
        let mut name: Vec<u8> = Vec::new();
        let is_domain: bool;
        match &target.hostname {
            HostName::V4(o) => {
                if o[0] == 0 && o[1] == 0 && o[2] == 0 && o[3] != 0 {
                    return Err(Error::Config);
                }
                out.push(o[0]);
                out.push(o[1]);
                out.push(o[2]);
                out.push(o[3]);
                assert(out@ =~= head + o@);
                is_domain = false;
            },
            HostName::V6(_) => {
                return Err(Error::Unsupported);
            },
            HostName::Domain(d) => {
                let c = chars_of(d.as_str());
                if find(c.as_slice(), '\0').is_some() {
                    return Err(Error::Config);
                }
                out.push(0u8);
                out.push(0u8);
                out.push(0u8);
                out.push(1u8);
                push_all(&mut name, d.as_str().as_bytes());
                assert(name@ == encode_utf8(d@));
                assert(out@ =~= head + seq![0u8, 0u8, 0u8, 1u8]);
                is_domain = true;
            },
        }
        let ghost addr_part = out@;
        if let Some(a) = &self.auth {
            push_all(&mut out, a.as_str().as_bytes());
            assert(out@ == addr_part + encode_utf8(a@));
        } else {
            assert(out@ =~= addr_part + Seq::<u8>::empty());
        }
        out.push(0u8);
        if is_domain {
            push_all(&mut out, name.as_slice());
            out.push(0u8);
        }
        proof {
            let user = match opt_view(self.auth) {
                Some(a) => encode_utf8(a),
                None => Seq::empty(),
            };
            if is_domain {
                assert(out@ =~= addr_part + user + seq![0u8] + name@ + seq![0u8]);
            } else {
                assert(out@ =~= addr_part + user + seq![0u8]);
            }
        }
        Ok(out)
    }
}

/// Checks the first two reply bytes: `00 5A` grants the request. The six
/// bytes that follow carry nothing needed.
pub fn reply_granted(version: u8, status: u8) -> (r: Result<(), Error>)
    ensures
        r is Ok <==> (version == 0 && status == 0x5a),
        r is Err ==> r == Err::<(), Error>(Error::Protocol),
{
    if version != 0 || status != 0x5a {
        Err(Error::Protocol)
    } else {
        Ok(())
    }
}

} // verus!

verus! {

/// A CONNECT to an IPv4 target in `0.0.0.1..=0.0.0.255` is refused whatever
/// the port and user id, so no request exists to be written.
pub proof fn lemma_placeholder_refused(o: Seq<u8>, port: u16, auth: Option<Seq<char>>)
    requires
        o.len() == 4,
        o[0] == 0 && o[1] == 0 && o[2] == 0,
        1 <= o[3] <= 255,
    ensures
        socks4_request(Host::V4(o), port, auth) is Err,
{
}

} // verus!
