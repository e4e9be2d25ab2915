use crate::addr::{Host, HostName, SocketAddr, parse_socket_spec};
use crate::config::ProxyConfig;
use crate::error::Error;
use crate::text::push_all;
use vstd::prelude::*;
use vstd::string::StringSliceAdditionalSpecFns;
use vstd::utf8::encode_utf8;

verus! {

/// A SOCKS5 proxy: its address and the credentials it offers (empty when
/// none are configured).
#[derive(Clone, Debug)]
pub struct Socks5Proxy {
    pub addr: SocketAddr,
    pub user: String,
    pub password: String,
}

/// Authentication method the server selected.
#[derive(Clone, Copy, Debug, PartialEq, Eq, Structural)]
pub enum Method {
    NoAuth,
    UserPassword,
}

/// How the bound address in a CONNECT reply is laid out.
#[derive(Clone, Copy, Debug, PartialEq, Eq, Structural)]
pub enum ReplyAddr {
    /// This many bytes of address and port follow.
    Fixed(usize),
    /// A length byte follows, then that many bytes and a two-byte port.
    Prefixed,
}

pub open spec fn opt_or_empty(o: Option<String>) -> Seq<char> {
    match o {
        Some(s) => s@,
        None => Seq::empty(),
    }
}

/// The method-selection greeting: version 5, two methods, none and user/password.
pub fn greeting() -> (r: Vec<u8>)
    ensures
        r@ == seq![5u8, 2u8, 0u8, 2u8],
{
    let r = vec![5u8, 2u8, 0u8, 2u8];
    assert(r@ =~= seq![5u8, 2u8, 0u8, 2u8]);
    r
}

/// Reads the server's method selection; only methods `00` and `02` of
/// version 5 are accepted.
pub fn method_selected(version: u8, method: u8) -> (r: Result<Method, Error>)
    ensures
        version != 5 ==> r == Err::<Method, Error>(Error::Protocol),
        version == 5 && method == 0 ==> r == Ok::<Method, Error>(Method::NoAuth),
        version == 5 && method == 2 ==> r == Ok::<Method, Error>(Method::UserPassword),
        version == 5 && method != 0 && method != 2 ==> r == Err::<Method, Error>(Error::Protocol),
{
    if version != 5 {
        return Err(Error::Protocol);
    }
    if method == 0 {
        Ok(Method::NoAuth)
    } else if method == 2 {
        Ok(Method::UserPassword)
    } else {
        Err(Error::Protocol)
    }
}

/// The user/password reply grants access only as `01 00`.
pub fn auth_granted(version: u8, status: u8) -> (r: Result<(), Error>)
    ensures
        r is Ok <==> (version == 1 && status == 0),
        r is Err ==> r == Err::<(), Error>(Error::Protocol),
{
    if version != 1 || status != 0 {
        Err(Error::Protocol)
    } else {
        Ok(())
    }
}

pub open spec fn connect_request_spec(target: Host, port: u16) -> Result<Seq<u8>, Error> {
    let tail = seq![(port / 256) as u8, (port % 256) as u8];
    match target {
        Host::V4(o) => Ok(seq![5u8, 1u8, 0u8, 1u8] + o + tail),
        Host::V6(g) => Ok(seq![5u8, 1u8, 0u8, 4u8] + v6_octets(g) + tail),
        Host::Domain(d) => if encode_utf8(d).len() > 255 {
            Err(Error::Config)
        } else {
            Ok(seq![5u8, 1u8, 0u8, 3u8, encode_utf8(d).len() as u8] + encode_utf8(d) + tail)
        },
    }
}

/// The sixteen network-order bytes of an IPv6 address.
pub open spec fn v6_octets(g: Seq<u16>) -> Seq<u8> {
    Seq::new(16, |i: int| if i % 2 == 0 { (g[i / 2] / 256) as u8 } else { (g[i / 2] % 256) as u8 })
}

pub open spec fn auth_request_spec(user: Seq<char>, password: Seq<char>) -> Seq<u8> {
    seq![1u8, encode_utf8(user).len() as u8] + encode_utf8(user) + seq![
        encode_utf8(password).len() as u8,
    ] + encode_utf8(password)
}

impl Socks5Proxy {
    /// Takes the server address and credentials from the configuration; a user
    /// or password longer than 255 bytes is refused.
    pub fn new(conf: &ProxyConfig) -> (r: Result<Socks5Proxy, Error>)
        ensures
            (encode_utf8(opt_or_empty(conf.user)).len() > 255 || encode_utf8(
                opt_or_empty(conf.password),
            ).len() > 255) ==> r == Err::<Socks5Proxy, Error>(Error::Config),
            (encode_utf8(opt_or_empty(conf.user)).len() <= 255 && encode_utf8(
                opt_or_empty(conf.password),
            ).len() <= 255) ==> match parse_socket_spec(conf.server@) {
                Ok((h, p)) => r is Ok && r->Ok_0.addr.hostname@ == h && r->Ok_0.addr.port == p
                    && r->Ok_0.user@ == opt_or_empty(conf.user) && r->Ok_0.password@
                    == opt_or_empty(conf.password),
                Err(e) => r == Err::<Socks5Proxy, Error>(Error::Addr(e)),
            },
    {
        let user = match &conf.user {
            Some(s) => s.clone(),
            None => String::new(),
        };
        assert(user@ == opt_or_empty(conf.user));
        let user_str = user.as_str();
        assert(user_str.spec_bytes() == encode_utf8(user@));
        if user_str.as_bytes().len() > 255 {
            return Err(Error::Config);
        }
        let password = match &conf.password {
            Some(s) => s.clone(),
            None => String::new(),
        };
        assert(password@ == opt_or_empty(conf.password));
        let password_str = password.as_str();
        assert(password_str.spec_bytes() == encode_utf8(password@));
        if password_str.as_bytes().len() > 255 {
            return Err(Error::Config);
        }
        let addr = match SocketAddr::from_str(conf.server.as_str()) {
            Ok(a) => a,
            Err(e) => return Err(Error::Addr(e)),
        };
        Ok(Socks5Proxy { addr, user, password })
    }

    /// The user/password sub-negotiation request (RFC 1929).
    pub fn auth_request(&self) -> (r: Vec<u8>)
        requires
            encode_utf8(self.user@).len() <= 255,
            encode_utf8(self.password@).len() <= 255,
        ensures
            r@ == auth_request_spec(self.user@, self.password@),
    {
        auth_request_of(&self.user, &self.password)
    }
}

/// The CONNECT request for `target`; a domain over 255 bytes is refused.
pub fn connect_request(target: &SocketAddr) -> (r: Result<Vec<u8>, Error>)
    ensures
        match r {
            Ok(b) => connect_request_spec(target.hostname@, target.port) == Ok::<Seq<u8>, Error>(
                b@,
            ),
            Err(e) => connect_request_spec(target.hostname@, target.port) == Err::<
                Seq<u8>,
                Error,
            >(e),
        },
{
    let port = target.port;
    let mut out: Vec<u8> = vec![5u8, 1u8, 0u8];
    match &target.hostname {
        HostName::V4(o) => {
            out.push(1u8);
            out.push(o[0]);
            out.push(o[1]);
            out.push(o[2]);
            out.push(o[3]);
        },
        HostName::V6(g) => {
            out.push(4u8);
            let ghost start = out@;
            let mut k: usize = 0;
            while k < 8
                invariant
                    k <= 8,
                    g@.len() == 8,
                    out@.len() == start.len() + 2 * k,
                    out@.subrange(0, start.len() as int) == start,
                    forall|i: int|
                        0 <= i < 2 * k ==> #[trigger] out@[start.len() + i] == v6_octets(g@)[i],
                decreases 8 - k,
            {
                out.push((g[k] / 256) as u8);
                out.push((g[k] % 256) as u8);
                proof {
                    assert forall|i: int| 0 <= i < 2 * (k + 1) implies #[trigger] out@[start.len()
                        + i] == v6_octets(g@)[i] by {
                        if i >= 2 * k {
                            assert(i / 2 == k as int);
                        }
                    }
                }
                k = k + 1;
            }
            assert forall|j: int| 0 <= j < out@.len() implies out@[j] == (start + v6_octets(
                g@,
            ))[j] by {
                if j < start.len() {
                    assert(out@.subrange(0, start.len() as int)[j] == out@[j]);
                } else {
                    assert(out@[start.len() + (j - start.len())] == v6_octets(g@)[j - start.len()]);
                }
            }
            assert(out@ =~= start + v6_octets(g@));
        },
        HostName::Domain(d) => {
            let b = d.as_str().as_bytes();
            if b.len() > 255 {
                return Err(Error::Config);
            }
            out.push(3u8);
            out.push(b.len() as u8);
            push_all(&mut out, b);
        },
    }
    out.push((port / 256) as u8);
    out.push((port % 256) as u8);
    assert(out@ =~= connect_request_spec(target.hostname@, target.port)->Ok_0);
    Ok(out)
}

/// Checks the head `05 00 00 atyp` of a CONNECT reply and says how the bound
/// address after it is laid out.
pub fn reply_head(head: &[u8]) -> (r: Result<ReplyAddr, Error>)
    requires
        head@.len() == 4,
    ensures
        (head@[0] != 5 || head@[1] != 0 || head@[2] != 0) ==> r == Err::<ReplyAddr, Error>(
            Error::Protocol,
        ),
        (head@[0] == 5 && head@[1] == 0 && head@[2] == 0) ==> r == (if head@[3] == 1 {
            Ok::<ReplyAddr, Error>(ReplyAddr::Fixed(6))
        } else if head@[3] == 4 {
            Ok::<ReplyAddr, Error>(ReplyAddr::Fixed(18))
        } else if head@[3] == 3 {
            Ok::<ReplyAddr, Error>(ReplyAddr::Prefixed)
        } else {
            Err::<ReplyAddr, Error>(Error::Protocol)
        }),
{
    if head[0] != 5 || head[1] != 0 || head[2] != 0 {
        return Err(Error::Protocol);
    }
    if head[3] == 1 {
        Ok(ReplyAddr::Fixed(6))
    } else if head[3] == 4 {
        Ok(ReplyAddr::Fixed(18))
    } else if head[3] == 3 {
        Ok(ReplyAddr::Prefixed)
    } else {
        Err(Error::Protocol)
    }
}

} // verus!

verus! {

/// Where a SOCKS5 handshake stands.
#[derive(Clone, Copy, Debug, PartialEq, Eq, Structural)]
pub enum Socks5State {
    /// Nothing sent yet.
    Start,
    /// Greeting sent; waiting for the two-byte method selection.
    AwaitMethod,
    /// Credentials sent; waiting for the two-byte status.
    AwaitAuth,
    /// CONNECT sent; waiting for the four-byte reply head.
    AwaitReplyHead,
    /// Waiting for the length byte of a domain bound address.
    AwaitAddrLen,
    /// Waiting for this many bytes of bound address and port.
    AwaitAddr(usize),
    /// The tunnel is open.
    Done,
    /// The handshake failed.
    Failed,
}

/// What the caller does next.
#[derive(Debug)]
pub enum Socks5Action {
    /// Send these bytes, then read exactly `read` bytes and hand them back.
    Exchange { send: Vec<u8>, read: usize },
    /// The tunnel is open: the stream now carries the target's bytes.
    Done,
    /// Give up with this error.
    Fail(Error),
}

/// A SOCKS5 handshake for one target, driven by the bytes the server sends.
#[derive(Debug)]
pub struct Socks5Session {
    pub state: Socks5State,
    pub user: String,
    pub password: String,
    pub target: SocketAddr,
}

/// Whether `a` is: send `send`, then read `read` bytes.
pub open spec fn exchange(a: Socks5Action, send: Seq<u8>, read: usize) -> bool {
    match a {
        Socks5Action::Exchange { send: s, read: r } => s@ == send && r == read,
        _ => false,
    }
}

pub open spec fn creds_fit(user: Seq<char>, password: Seq<char>) -> bool {
    encode_utf8(user).len() <= 255 && encode_utf8(password).len() <= 255
}

impl Socks5Session {
    /// A handshake with `proxy`'s credentials for `target`.
    pub fn new(proxy: &Socks5Proxy, target: &SocketAddr) -> (r: Socks5Session)
        ensures
            r.state == Socks5State::Start,
            r.user@ == proxy.user@,
            r.password@ == proxy.password@,
            r.target.hostname@ == target.hostname@,
            r.target.port == target.port,
    {
        Socks5Session {
            state: Socks5State::Start,
            user: proxy.user.clone(),
            password: proxy.password.clone(),
            target: SocketAddr::new(target.hostname.clone_host(), target.port),
        }
    }

    /// The CONNECT request, or the failure when the target cannot be sent.
    fn send_connect(&mut self) -> (a: Socks5Action)
        ensures
            final(self).user == old(self).user && final(self).password == old(self).password
                && final(self).target == old(self).target,
            match connect_request_spec(old(self).target.hostname@, old(self).target.port) {
                Ok(b) => final(self).state == Socks5State::AwaitReplyHead && exchange(a, b, 4),
                Err(e) => final(self).state == Socks5State::Failed && a == Socks5Action::Fail(e),
            },
    {
        match connect_request(&self.target) {
            Ok(b) => {
                self.state = Socks5State::AwaitReplyHead;
                Socks5Action::Exchange { send: b, read: 4 }
            },
            Err(e) => {
                self.state = Socks5State::Failed;
                Socks5Action::Fail(e)
            },
        }
    }

    /// Begins the handshake: the greeting, then two bytes to read.
    pub fn start(&mut self) -> (a: Socks5Action)
        requires
            old(self).state == Socks5State::Start,
        ensures
            final(self).state == Socks5State::AwaitMethod,
            exchange(a, seq![5u8, 2u8, 0u8, 2u8], 2),
    {
        self.state = Socks5State::AwaitMethod;
        Socks5Action::Exchange { send: greeting(), read: 2 }
    }

    /// Takes the bytes read for the last exchange and says what comes next.
    /// Bytes of the wrong count, or any reply the protocol does not allow,
    /// end the handshake as failed.
    pub fn on_read(&mut self, bytes: &[u8]) -> (a: Socks5Action)
        ensures
            final(self).user == old(self).user && final(self).password == old(self).password
                && final(self).target == old(self).target,
            old(self).state == Socks5State::AwaitMethod && bytes@.len() == 2 && bytes@[0] == 5
                && bytes@[1] == 0 ==> match connect_request_spec(
                old(self).target.hostname@,
                old(self).target.port,
            ) {
                Ok(b) => final(self).state == Socks5State::AwaitReplyHead && exchange(a, b, 4),
                Err(_) => final(self).state == Socks5State::Failed,
            },
            old(self).state == Socks5State::AwaitMethod && bytes@.len() == 2 && bytes@[0] == 5
                && bytes@[1] == 2 ==> if creds_fit(old(self).user@, old(self).password@) {
                final(self).state == Socks5State::AwaitAuth && exchange(
                    a,
                    auth_request_spec(old(self).user@, old(self).password@),
                    2,
                )
            } else {
                final(self).state == Socks5State::Failed
            },
            old(self).state == Socks5State::AwaitAuth && bytes@.len() == 2 && bytes@[0] == 1
                && bytes@[1] == 0 ==> match connect_request_spec(
                old(self).target.hostname@,
                old(self).target.port,
            ) {
                Ok(b) => final(self).state == Socks5State::AwaitReplyHead && exchange(a, b, 4),
                Err(_) => final(self).state == Socks5State::Failed,
            },
            old(self).state == Socks5State::AwaitReplyHead && bytes@.len() == 4 && bytes@[0] == 5
                && bytes@[1] == 0 && bytes@[2] == 0 && (bytes@[3] == 1 || bytes@[3] == 4) ==> (final(self).state
                is AwaitAddr) && exchange(
                a,
                Seq::empty(),
                if bytes@[3] == 1 {
                    6usize
                } else {
                    18usize
                },
            ),
            old(self).state == Socks5State::AwaitReplyHead && bytes@.len() == 4 && bytes@[0] == 5
                && bytes@[1] == 0 && bytes@[2] == 0 && bytes@[3] == 3 ==> final(self).state
                == Socks5State::AwaitAddrLen && exchange(a, Seq::empty(), 1),
            old(self).state == Socks5State::AwaitAddrLen && bytes@.len() == 1 ==> (final(self).state
                is AwaitAddr) && exchange(a, Seq::empty(), (bytes@[0] as usize + 2) as usize),
            (final(self).state == Socks5State::Done) <==> (old(self).state is AwaitAddr
                && bytes@.len() == old(self).state->AwaitAddr_0),
            final(self).state == Socks5State::Done <==> (a is Done),
            final(self).state == Socks5State::Failed <==> (a is Fail),
            !(old(self).state == Socks5State::AwaitMethod && bytes@.len() == 2 && bytes@[0] == 5 && (
            bytes@[1] == 0 || bytes@[1] == 2)) && !(old(self).state == Socks5State::AwaitAuth
                && bytes@.len() == 2 && bytes@[0] == 1 && bytes@[1] == 0) && !(old(self).state
                == Socks5State::AwaitReplyHead && bytes@.len() == 4 && bytes@[0] == 5 && bytes@[1]
                == 0 && bytes@[2] == 0 && (bytes@[3] == 1 || bytes@[3] == 3 || bytes@[3] == 4))
                && !(old(self).state == Socks5State::AwaitAddrLen && bytes@.len() == 1) && !(
            old(self).state is AwaitAddr && bytes@.len() == old(self).state->AwaitAddr_0) ==> final(self).state
                == Socks5State::Failed,
    {
        match self.state {
            Socks5State::AwaitMethod => {
                if bytes.len() != 2 {
                    self.state = Socks5State::Failed;
                    return Socks5Action::Fail(Error::Protocol);
                }
                match method_selected(bytes[0], bytes[1]) {
                    Err(e) => {
                        self.state = Socks5State::Failed;
                        Socks5Action::Fail(e)
                    },
                    Ok(Method::NoAuth) => self.send_connect(),
                    Ok(Method::UserPassword) => {
                        if self.user.as_str().as_bytes().len() > 255
                            || self.password.as_str().as_bytes().len() > 255 {
                            self.state = Socks5State::Failed;
                            return Socks5Action::Fail(Error::Config);
                        }
                        let req = auth_request_of(&self.user, &self.password);
                        self.state = Socks5State::AwaitAuth;
                        Socks5Action::Exchange { send: req, read: 2 }
                    },
                }
            },
            Socks5State::AwaitAuth => {
                if bytes.len() != 2 {
                    self.state = Socks5State::Failed;
                    return Socks5Action::Fail(Error::Protocol);
                }
                match auth_granted(bytes[0], bytes[1]) {
                    Err(e) => {
                        self.state = Socks5State::Failed;
                        Socks5Action::Fail(e)
                    },
                    Ok(()) => self.send_connect(),
                }
            },
            Socks5State::AwaitReplyHead => {
                if bytes.len() != 4 {
                    self.state = Socks5State::Failed;
                    return Socks5Action::Fail(Error::Protocol);
                }
                match reply_head(bytes) {
                    Err(e) => {
                        self.state = Socks5State::Failed;
                        Socks5Action::Fail(e)
                    },
                    Ok(ReplyAddr::Fixed(n)) => {
                        self.state = Socks5State::AwaitAddr(n);
                        Socks5Action::Exchange { send: Vec::new(), read: n }
                    },
                    Ok(ReplyAddr::Prefixed) => {
                        self.state = Socks5State::AwaitAddrLen;
                        Socks5Action::Exchange { send: Vec::new(), read: 1 }
                    },
                }
            },
            Socks5State::AwaitAddrLen => {
                if bytes.len() != 1 {
                    self.state = Socks5State::Failed;
                    return Socks5Action::Fail(Error::Protocol);
                }
                let n = bytes[0] as usize + 2;
                self.state = Socks5State::AwaitAddr(n);
                Socks5Action::Exchange { send: Vec::new(), read: n }
            },
            Socks5State::AwaitAddr(n) => {
                if bytes.len() != n {
                    self.state = Socks5State::Failed;
                    return Socks5Action::Fail(Error::Protocol);
                }
                self.state = Socks5State::Done;
                Socks5Action::Done
            },
            _ => {
                self.state = Socks5State::Failed;
                Socks5Action::Fail(Error::Protocol)
            },
        }
    }
}

/// The user/password request for these credentials.
fn auth_request_of(user: &String, password: &String) -> (r: Vec<u8>)
    requires
        creds_fit(user@, password@),
    ensures
        r@ == auth_request_spec(user@, password@),
{
    let u = user.as_str().as_bytes();
    let p = password.as_str().as_bytes();
    let mut out: Vec<u8> = vec![1u8, u.len() as u8];
    push_all(&mut out, u);
    out.push(p.len() as u8);
    push_all(&mut out, p);
    assert(out@ =~= auth_request_spec(user@, password@));
    out
}

} // verus!
