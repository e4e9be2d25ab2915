use crate::addr::{
    AddrError, Host, HostName, SocketAddr, host_text, parse_host, parse_host_header_spec, parse_socket_spec,
};
use crate::config::ProxyConfig;
use crate::error::Error;
use crate::forward::default_port;
use crate::fragment::Fragment;
use crate::http::{HttpProxy, base64_of, basic_credentials};
use crate::num::{split, split_chars};
use crate::socks4::{Socks4Proxy, has_nul, user_id_of};
use crate::socks5::{Socks5Proxy, opt_or_empty};
use crate::text::chars_eq_str;
use vstd::prelude::*;
use vstd::utf8::encode_utf8;

verus! {

/// The innermost element of every chain: a direct TCP connection.
#[derive(Clone, Copy, Debug)]
pub struct Raw;

impl Raw {
    pub fn new() -> (r: Raw) {
        Raw
    }
}

/// A layer that runs a TLS client over the connection beneath it.
#[derive(Clone, Copy, Debug)]
pub struct TlsClient;

impl TlsClient {
    pub fn new() -> (r: TlsClient) {
        TlsClient
    }

    /// The name the handshake presents and checks: the target's host, an
    /// IPv6 address without brackets.
    pub fn server_name(&self, target: &SocketAddr) -> (r: String)
        ensures
            r@ == host_text(target.hostname@),
    {
        target.hostname.to_string()
    }
}

/// One element of the outbound chain.
#[derive(Debug)]
pub enum Outbound {
    Raw(Raw),
    Tls(TlsClient),
    Fragment(Fragment),
    Http(HttpProxy),
    Socks4(Socks4Proxy),
    Socks5(Socks5Proxy),
}

#[derive(Clone, Copy, Debug, PartialEq, Eq, Structural)]
pub enum Kind {
    Raw,
    Tls,
    Fragment,
    Http,
    Socks4,
    Socks5,
}

impl Outbound {
    pub open spec fn kind(&self) -> Kind {
        match self {
            Outbound::Raw(_) => Kind::Raw,
            Outbound::Tls(_) => Kind::Tls,
            Outbound::Fragment(_) => Kind::Fragment,
            Outbound::Http(_) => Kind::Http,
            Outbound::Socks4(_) => Kind::Socks4,
            Outbound::Socks5(_) => Kind::Socks5,
        }
    }
}

pub open spec fn kinds(s: Seq<Outbound>) -> Seq<Kind> {
    s.map_values(|o: Outbound| o.kind())
}

/// The base protocol a name stands for.
pub open spec fn base_kind(t: Seq<char>) -> Option<Kind> {
    if t == "http"@ {
        Some(Kind::Http)
    } else if t == "socks4"@ {
        Some(Kind::Socks4)
    } else if t == "socks5"@ {
        Some(Kind::Socks5)
    } else {
        None
    }
}

/// The elements one `[layer+…+]base` protocol adds, in the order pushed.
pub open spec fn protocol_kinds(p: Seq<char>) -> Option<Seq<Kind>> {
    let t = split(p, '+');
    let n = t.len() - 1;
    if (forall|i: int| 0 <= i < n ==> #[trigger] t[i] == "tls"@) && base_kind(t[n]) is Some {
        Some(Seq::new(n as nat, |i: int| Kind::Tls).push(base_kind(t[n]).unwrap()))
    } else {
        None
    }
}

/// Whether the configured chain ends in the fragmenting layer: unless the
/// configuration forces fragmentation off.
pub open spec fn fragment_in_stack(f: Option<u8>) -> bool {
    f != Some(2u8)
}

/// The elements of the chain for these protocols, after the `Raw` terminator.
pub open spec fn chain_kinds(ps: Seq<Seq<char>>) -> Option<Seq<Kind>>
    decreases ps.len(),
{
    if ps.len() == 0 {
        Some(Seq::empty())
    } else {
        match (chain_kinds(ps.drop_last()), protocol_kinds(ps.last())) {
            (Some(a), Some(b)) => Some(a + b),
            _ => None,
        }
    }
}

pub open spec fn protocols(cs: Seq<ProxyConfig>) -> Seq<Seq<char>> {
    cs.map_values(|c: ProxyConfig| c.protocol@)
}

/// The whole chain: `Raw`, each proxy's layers and base, then the fragmenter
/// unless it is configured off.
pub open spec fn stack_kinds(cs: Seq<ProxyConfig>, f: Option<u8>) -> Option<Seq<Kind>> {
    match chain_kinds(protocols(cs)) {
        Some(k) => Some(
            seq![Kind::Raw] + k + if fragment_in_stack(f) {
                seq![Kind::Fragment]
            } else {
                Seq::empty()
            },
        ),
        None => None,
    }
}

/// Whether the proxy's own settings suit its base protocol: a readable
/// server address, a SOCKS4 user id without NUL, SOCKS5 credentials of at
/// most 255 bytes each.
pub open spec fn proxy_accepted(conf: ProxyConfig) -> bool {
    let t = split(conf.protocol@, '+');
    &&& parse_socket_spec(conf.server@) is Ok
    &&& base_kind(t[t.len() - 1]) == Some(Kind::Socks4) ==> !has_nul(
        user_id_of(conf.user, conf.password),
    )
    &&& base_kind(t[t.len() - 1]) == Some(Kind::Socks5) ==> encode_utf8(
        opt_or_empty(conf.user),
    ).len() <= 255 && encode_utf8(opt_or_empty(conf.password)).len() <= 255
}

/// Whether a proxy element carries what its configuration gives it: the
/// server address read from `server`, and the credentials as each
/// protocol's constructor forms them.
pub open spec fn built_from(o: Outbound, c: ProxyConfig) -> bool {
    match o {
        Outbound::Http(p) => parse_socket_spec(c.server@) == Ok::<(Host, u16), AddrError>(
            (p.addr.hostname@, p.addr.port),
        ) && match p.auth {
            Some(a) => basic_credentials(c.user, c.password).len() > 1 && a@ == base64_of(
                encode_utf8(basic_credentials(c.user, c.password)),
            ),
            None => basic_credentials(c.user, c.password).len() <= 1,
        },
        Outbound::Socks4(p) => parse_socket_spec(c.server@) == Ok::<(Host, u16), AddrError>(
            (p.addr.hostname@, p.addr.port),
        ) && match p.auth {
            Some(a) => a@ == user_id_of(c.user, c.password) && a@.len() > 0,
            None => user_id_of(c.user, c.password).len() == 0,
        },
        Outbound::Socks5(p) => parse_socket_spec(c.server@) == Ok::<(Host, u16), AddrError>(
            (p.addr.hostname@, p.addr.port),
        ) && p.user@ == opt_or_empty(c.user) && p.password@ == opt_or_empty(c.password),
        _ => false,
    }
}

pub open spec fn is_proxy(o: Outbound) -> bool {
    o is Http || o is Socks4 || o is Socks5
}

/// The proxy elements of a chain, in order, without its layers.
pub open spec fn proxies_of(s: Seq<Outbound>) -> Seq<Outbound>
    decreases s.len(),
{
    if s.len() == 0 {
        Seq::empty()
    } else if is_proxy(s.last()) {
        proxies_of(s.drop_last()).push(s.last())
    } else {
        proxies_of(s.drop_last())
    }
}

proof fn lemma_proxies_of_push(s: Seq<Outbound>, o: Outbound)
    ensures
        proxies_of(s.push(o)) == if is_proxy(o) {
            proxies_of(s).push(o)
        } else {
            proxies_of(s)
        },
{
    assert(s.push(o).drop_last() =~= s);
}

/// Pushes the elements of one proxy onto the stack.
fn push_proxy(stack: &mut Vec<Outbound>, conf: &ProxyConfig) -> (r: Result<(), Error>)
    ensures
        protocol_kinds(conf.protocol@) is None ==> r == Err::<(), Error>(Error::Config),
        r is Ok <==> protocol_kinds(conf.protocol@) is Some && proxy_accepted(*conf),
        r is Ok ==> protocol_kinds(conf.protocol@) is Some && kinds(final(stack)@) == kinds(
            old(stack)@,
        ) + protocol_kinds(conf.protocol@).unwrap(),
        r is Ok ==> proxies_of(final(stack)@) == proxies_of(old(stack)@).push(final(stack)@.last())
            && built_from(final(stack)@.last(), *conf),
{
    proof {
        reveal_strlit("http");
        reveal_strlit("socks4");
        reveal_strlit("socks5");
        reveal_strlit("tls");
    }
    let t = split_chars(crate::text::chars_of(conf.protocol.as_str()).as_slice(), '+');
    let ghost ts = split(conf.protocol@, '+');
    assert(ts.len() >= 1);
    let n = t.len() - 1;
    let mut i: usize = 0;
    while i < n
        invariant
            ts == split(conf.protocol@, '+'),
            n == t@.len() - 1,
            t@.len() == ts.len(),
            forall|k: int| 0 <= k < t@.len() ==> #[trigger] t@[k]@ == ts[k],
            i <= n,
            forall|k: int| 0 <= k < i ==> #[trigger] ts[k] == "tls"@,
        decreases n - i,
    {
        if !chars_eq_str(t[i].as_slice(), "tls") {
            assert(ts[i as int] != "tls"@);
            assert(protocol_kinds(conf.protocol@) is None);
            return Err(Error::Config);
        }
        i = i + 1;
    }
    assert(split(conf.protocol@, '+')[ts.len() - 1] == t@[n as int]@);
    let base = t[n].as_slice();
    let kind = if chars_eq_str(base, "http") {
        Kind::Http
    } else if chars_eq_str(base, "socks4") {
        Kind::Socks4
    } else if chars_eq_str(base, "socks5") {
        Kind::Socks5
    } else {
        return Err(Error::Config);
    };
    let proxy = match kind {
        Kind::Http => match HttpProxy::new(conf) {
            Ok(p) => Outbound::Http(p),
            Err(e) => return Err(e),
        },
        Kind::Socks4 => match Socks4Proxy::new(conf) {
            Ok(p) => Outbound::Socks4(p),
            Err(e) => return Err(e),
        },
        _ => match Socks5Proxy::new(conf) {
            Ok(p) => Outbound::Socks5(p),
            Err(e) => return Err(e),
        },
    };
    assert(built_from(proxy, *conf));
    let ghost before = kinds(stack@);
    let ghost pbefore = proxies_of(stack@);
    let mut k: usize = 0;
    while k < n
        invariant
            k <= n,
            kinds(stack@) == before + Seq::new(k as nat, |q: int| Kind::Tls),
            proxies_of(stack@) == pbefore,
        decreases n - k,
    {
        let ghost s0 = stack@;
        stack.push(Outbound::Tls(TlsClient::new()));
        proof {
            lemma_kinds_push(s0, stack@.last());
            assert(stack@ == s0.push(stack@.last()));
            lemma_proxies_of_push(s0, stack@.last());
        }
        k = k + 1;
        assert(kinds(stack@) =~= before + Seq::new(k as nat, |q: int| Kind::Tls));
    }
    let ghost s1 = stack@;
    let ghost pushed = proxy;
    stack.push(proxy);
    proof {
        lemma_kinds_push(s1, stack@.last());
        assert(stack@ == s1.push(stack@.last()));
        lemma_proxies_of_push(s1, stack@.last());
        assert(stack@.last() == pushed);
    }
    assert(kinds(stack@) =~= before + Seq::new(n as nat, |q: int| Kind::Tls).push(kind));
    Ok(())
}

/// Builds the chain from the configured proxies, in order: `Raw` first, then
/// each proxy's layers and base protocol, then the fragmenter unless it is
/// configured off. An unknown layer or base protocol is a configuration error.
#[verifier::spinoff_prover]
pub fn build_stack(proxies: &Vec<ProxyConfig>, fragment: Option<u8>) -> (r: Result<Vec<Outbound>, Error>)
    ensures
        match r {
            Ok(s) => stack_kinds(proxies@, fragment) == Some(kinds(s@)),
            Err(_) => true,
        },
        chain_kinds(protocols(proxies@)) is None ==> r is Err,
        r is Ok <==> chain_kinds(protocols(proxies@)) is Some && forall|i: int|
            0 <= i < proxies@.len() ==> proxy_accepted(#[trigger] proxies@[i]),
        r is Ok ==> proxies_of(r->Ok_0@).len() == proxies@.len() && forall|i: int|
            0 <= i < proxies@.len() ==> built_from(#[trigger] proxies_of(r->Ok_0@)[i], proxies@[i]),
{
    let mut stack: Vec<Outbound> = Vec::new();
    stack.push(Outbound::Raw(Raw::new()));
    proof {
        lemma_kinds_push(Seq::empty(), stack@.last());
        assert(stack@ =~= Seq::<Outbound>::empty().push(stack@.last()));
        assert(proxies@.subrange(0, 0) =~= Seq::<ProxyConfig>::empty());
        lemma_proxies_of_push(Seq::empty(), stack@.last());
        assert(protocols(proxies@.subrange(0, 0)) =~= Seq::<Seq<char>>::empty());
    }
    let mut i: usize = 0;
    while i < proxies.len()
        invariant
            i <= proxies@.len(),
            chain_kinds(protocols(proxies@.subrange(0, i as int))) is Some,
            kinds(stack@) == seq![Kind::Raw] + chain_kinds(
                protocols(proxies@.subrange(0, i as int)),
            ).unwrap(),
            forall|k: int| 0 <= k < i ==> proxy_accepted(#[trigger] proxies@[k]),
            proxies_of(stack@).len() == i,
            forall|k: int| 0 <= k < i ==> built_from(#[trigger] proxies_of(stack@)[k], proxies@[k]),
        decreases proxies@.len() - i,
    {
        let ghost pre = proxies@.subrange(0, i as int);
        let ghost next = proxies@.subrange(0, i + 1);
        assert(protocols(next).drop_last() =~= protocols(pre));
        assert(protocols(next).last() == proxies@[i as int].protocol@);
        let ghost pold = proxies_of(stack@);
        match push_proxy(&mut stack, &proxies[i]) {
            Ok(()) => {
                assert forall|k: int| 0 <= k < i + 1 implies built_from(
                    #[trigger] proxies_of(stack@)[k],
                    proxies@[k],
                ) by {
                    if k < i {
                        assert(proxies_of(stack@)[k] == pold[k]);
                    }
                }
            },
            Err(e) => {
                proof {
                    if protocol_kinds(proxies@[i as int].protocol@) is None {
                        assert(protocols(proxies@)[i as int] == proxies@[i as int].protocol@);
                        lemma_chain_prefix_none(protocols(proxies@), i + 1);
                    }
                }
                return Err(e);
            },
        }
        i = i + 1;
        assert(kinds(stack@) =~= seq![Kind::Raw] + chain_kinds(protocols(next)).unwrap());
    }
    assert(proxies@.subrange(0, i as int) =~= proxies@);
    let ghost mid = kinds(stack@);
    if fragment != Some(2u8) {
        let ghost s0 = stack@;
        stack.push(Outbound::Fragment(Fragment::new()));
        proof {
            lemma_kinds_push(s0, stack@.last());
            assert(stack@ == s0.push(stack@.last()));
            lemma_proxies_of_push(s0, stack@.last());
        }
    }
    assert(kinds(stack@) =~= mid + if fragment_in_stack(fragment) {
        seq![Kind::Fragment]
    } else {
        Seq::empty()
    });
    Ok(stack)
}

proof fn lemma_kinds_push(s: Seq<Outbound>, o: Outbound)
    ensures
        kinds(s.push(o)) == kinds(s).push(o.kind()),
{
    assert(kinds(s.push(o)) =~= kinds(s).push(o.kind()));
}

/// A chain that fails on a prefix fails as a whole.
proof fn lemma_chain_prefix_none(ps: Seq<Seq<char>>, i: int)
    requires
        0 <= i <= ps.len(),
        chain_kinds(ps.subrange(0, i)) is None || protocol_kinds(ps[i - 1]) is None,
        i >= 1,
    ensures
        chain_kinds(ps) is None,
    decreases ps.len() - i,
{
    if chain_kinds(ps.subrange(0, i)) is Some {
        assert(ps.subrange(0, i).drop_last() =~= ps.subrange(0, i - 1));
    }
    lemma_chain_none_extends(ps, i);
}

proof fn lemma_chain_none_extends(ps: Seq<Seq<char>>, i: int)
    requires
        1 <= i <= ps.len(),
        chain_kinds(ps.subrange(0, i)) is None || protocol_kinds(ps[i - 1]) is None,
    ensures
        chain_kinds(ps) is None,
    decreases ps.len() - i,
{
    let pre = ps.subrange(0, i);
    assert(pre.drop_last() =~= ps.subrange(0, i - 1));
    assert(pre.last() == ps[i - 1]);
    assert(chain_kinds(pre) is None);
    if i < ps.len() {
        let next = ps.subrange(0, i + 1);
        assert(next.drop_last() =~= pre);
        assert(chain_kinds(next) is None);
        lemma_chain_none_extends(ps, i + 1);
    } else {
        assert(pre =~= ps);
    }
}

/// The remaining chain tail: elements `0..remaining` of the stack, walked
/// from the end. Copying it is how two attempts each get their own tail.
#[derive(Clone, Copy, Debug)]
pub struct ProxyStack {
    pub remaining: usize,
}

impl ProxyStack {
    /// The tail over a whole stack of `len` elements.
    pub fn new(len: usize) -> (r: ProxyStack)
        ensures
            r.remaining == len,
    {
        ProxyStack { remaining: len }
    }

    /// Pops the next element, the last of those remaining.
    pub fn next(&mut self) -> (r: Option<usize>)
        ensures
            old(self).remaining == 0 ==> r is None && final(self).remaining == 0,
            old(self).remaining > 0 ==> r == Some((old(self).remaining - 1) as usize)
                && final(self).remaining == old(self).remaining - 1,
    {
        if self.remaining == 0 {
            None
        } else {
            self.remaining = self.remaining - 1;
            Some(self.remaining)
        }
    }
}

/// How a chain element opens its connection.
#[derive(Clone, Copy, Debug, PartialEq, Eq, Structural)]
pub enum ConnectStep {
    /// Open a TCP connection to the target itself, with no delay.
    Direct,
    /// Let element `i` connect to the same target.
    Delegate(usize),
    /// Let element `i` connect to this proxy's server, then ask it for the target.
    ViaServer(usize),
    /// Let element `i` connect to the target, then wrap the stream.
    Wrap(usize),
}

/// How a chain element forwards a plain HTTP request.
#[derive(Clone, Copy, Debug, PartialEq, Eq, Structural)]
pub enum HttpStep {
    /// Hand it unchanged to element `i`.
    Passthrough(usize),
    /// Connect to the HTTP proxy through element `i` and send it an
    /// absolute-form request.
    Native(usize),
    /// Tunnel: connect to the origin through this element, TLS for `https`,
    /// and speak HTTP/1 there.
    Tunnel,
}

impl Outbound {
    /// Pops what the element needs from the tail and says how it connects.
    /// Every element but `Raw` needs an element beneath it.
    pub fn connect_step(&self, tail: &mut ProxyStack) -> (r: Result<ConnectStep, Error>)
        ensures
            old(tail).remaining == 0 ==> final(tail).remaining == 0 && r == (if self.kind()
                == Kind::Raw {
                Ok::<ConnectStep, Error>(ConnectStep::Direct)
            } else {
                Err::<ConnectStep, Error>(Error::Config)
            }),
            old(tail).remaining > 0 ==> final(tail).remaining == old(tail).remaining - 1 && {
                let i = (old(tail).remaining - 1) as usize;
                r == Ok::<ConnectStep, Error>(
                    match self.kind() {
                        Kind::Raw => ConnectStep::Delegate(i),
                        Kind::Tls | Kind::Fragment => ConnectStep::Wrap(i),
                        _ => ConnectStep::ViaServer(i),
                    },
                )
            },
    {
        let next = tail.next();
        match self {
            Outbound::Raw(_) => match next {
                Some(i) => Ok(ConnectStep::Delegate(i)),
                None => Ok(ConnectStep::Direct),
            },
            Outbound::Tls(_) | Outbound::Fragment(_) => match next {
                Some(i) => Ok(ConnectStep::Wrap(i)),
                None => Err(Error::Config),
            },
            _ => match next {
                Some(i) => Ok(ConnectStep::ViaServer(i)),
                None => Err(Error::Config),
            },
        }
    }

    /// Says how the element forwards an HTTP request with `scheme`: the
    /// fragmenter passes it on, an HTTP proxy forwards `http` itself, all
    /// else tunnels.
    pub fn http_step(&self, tail: &mut ProxyStack, scheme: &str) -> (r: Result<HttpStep, Error>)
        ensures
            ({
                let pops = self.kind() == Kind::Fragment || (self.kind() == Kind::Http && scheme@
                    == "http"@);
                &&& !pops ==> r == Ok::<HttpStep, Error>(HttpStep::Tunnel) && *final(tail)
                    == *old(tail)
                &&& pops && old(tail).remaining == 0 ==> r == Err::<HttpStep, Error>(
                    Error::Config,
                )
                &&& pops && old(tail).remaining > 0 ==> final(tail).remaining == old(
                    tail,
                ).remaining - 1 && r == Ok::<HttpStep, Error>(
                    if self.kind() == Kind::Fragment {
                        HttpStep::Passthrough((old(tail).remaining - 1) as usize)
                    } else {
                        HttpStep::Native((old(tail).remaining - 1) as usize)
                    },
                )
            }),
    {
        match self {
            Outbound::Fragment(f) => {
                if f.is_http_passthrough() {
                    match tail.next() {
                        Some(i) => Ok(HttpStep::Passthrough(i)),
                        None => Err(Error::Config),
                    }
                } else {
                    Ok(HttpStep::Tunnel)
                }
            },
            Outbound::Http(_) => {
                if chars_eq_str(crate::text::chars_of(scheme).as_slice(), "http") {
                    match tail.next() {
                        Some(i) => Ok(HttpStep::Native(i)),
                        None => Err(Error::Config),
                    }
                } else {
                    Ok(HttpStep::Tunnel)
                }
            },
            _ => Ok(HttpStep::Tunnel),
        }
    }
}

/// How the chain is changed for one request.
#[derive(Clone, Copy, Debug, PartialEq, Eq, Structural)]
pub enum ChainEdit {
    Keep,
    /// Walk the chain without its final fragmenter.
    DropTail,
    /// Walk the chain with a fragmenter added at its end.
    PushFragment,
}

/// A request that asks for no fragmentation drops the configured
/// fragmenter; one that asks for it adds one when none is configured.
pub fn select_chain(config_fragment: Option<u8>, request_fragment: Option<bool>) -> (r: ChainEdit)
    ensures
        r == (match request_fragment {
            Some(false) => if fragment_in_stack(config_fragment) {
                ChainEdit::DropTail
            } else {
                ChainEdit::Keep
            },
            Some(true) => if fragment_in_stack(config_fragment) {
                ChainEdit::Keep
            } else {
                ChainEdit::PushFragment
            },
            None => ChainEdit::Keep,
        }),
{
    let in_stack = config_fragment != Some(2u8);
    match request_fragment {
        Some(f) => if in_stack {
            if !f {
                ChainEdit::DropTail
            } else {
                ChainEdit::Keep
            }
        } else if f {
            ChainEdit::PushFragment
        } else {
            ChainEdit::Keep
        },
        None => ChainEdit::Keep,
    }
}

/// Per-request options: resolve through DoH, connect to a stand-in host
/// while keeping the real name for TLS and `Host`, force fragmentation on or off.
#[derive(Clone, Debug)]
pub struct RequestConfig {
    pub doh: bool,
    pub fake_host: Option<HostName>,
    pub fragment: Option<bool>,
}

impl RequestConfig {
    pub fn new() -> (r: RequestConfig)
        ensures
            r.doh,
            r.fake_host is None,
            r.fragment is None,
    {
        RequestConfig { doh: true, fake_host: None, fragment: None }
    }

    /// Options for a DoH query: never resolved through DoH itself, connected
    /// to the configured stand-in host when it reads as a host, and
    /// fragmented when the configuration forces fragmentation on.
    pub fn for_doh(fake_host: Option<&str>, config_fragment: Option<u8>) -> (r: RequestConfig)
        ensures
            !r.doh,
            match fake_host {
                Some(f) => match parse_host(f@) {
                    Some(h) => r.fake_host is Some && r.fake_host->Some_0@ == h,
                    None => r.fake_host is None,
                },
                None => r.fake_host is None,
            },
            r.fragment == (if config_fragment == Some(1u8) {
                Some(true)
            } else {
                None
            }),
    {
        let fake = match fake_host {
            Some(f) => match HostName::from_str(f) {
                Ok(h) => Some(h),
                Err(_) => None,
            },
            None => None,
        };
        let fragment = if config_fragment == Some(1u8) {
            Some(true)
        } else {
            None
        };
        RequestConfig { doh: false, fake_host: fake, fragment }
    }
}

/// The absolute-form request target an HTTP proxy receives:
/// `scheme://host` followed by the path and query.
pub fn absolute_uri(scheme: &str, host: &str, path_and_query: &str) -> (r: String)
    ensures
        r@ == scheme@ + "://"@ + host@ + path_and_query@,
{
    proof {
        reveal_strlit("://");
    }
    let mut v = crate::text::chars_of(scheme);
    v.push(':');
    v.push('/');
    v.push('/');
    let h = crate::text::chars_of(host);
    crate::text::push_all(&mut v, h.as_slice());
    let pq = crate::text::chars_of(path_and_query);
    crate::text::push_all(&mut v, pq.as_slice());
    assert(v@ =~= scheme@ + "://"@ + host@ + path_and_query@);
    crate::text::string_of(v.as_slice())
}

/// Where a tunnelled request goes.
#[derive(Debug)]
pub struct TunnelPlan {
    /// The real target: TLS and `Host` use its name.
    pub addr: SocketAddr,
    /// Where the connection is opened: the stand-in host when one is set.
    pub connect_to: SocketAddr,
    /// Whether to run TLS over the connection (`https`).
    pub tls: bool,
    /// Whether to race DoH answers for the connection.
    pub happy_eyeballs: bool,
}

/// Plans a tunnelled request from its scheme and `Host` header: a missing
/// port takes the scheme's default, and a scheme with none is refused.
pub fn tunnel_plan(scheme: &str, host: &str, conf: &RequestConfig) -> (r: Result<TunnelPlan, Error>)
    ensures
        match parse_host_header_spec(host@) {
            Err(e) => r == Err::<TunnelPlan, Error>(Error::Addr(e)),
            Ok((h, p)) => match (if p is Some {
                p
            } else {
                default_port(scheme@)
            }) {
                None => r == Err::<TunnelPlan, Error>(Error::Config),
                Some(port) => r is Ok && r->Ok_0.addr.hostname@ == h && r->Ok_0.addr.port == port
                    && r->Ok_0.connect_to.port == port && r->Ok_0.connect_to.hostname@ == (match conf.fake_host {
                    Some(f) => f@,
                    None => h,
                }) && r->Ok_0.tls == (scheme@ == "https"@) && r->Ok_0.happy_eyeballs == conf.doh,
            },
        },
{
    proof {
        reveal_strlit("http");
        reveal_strlit("https");
    }
    let (hostname, port) = match SocketAddr::parse_host_header(host) {
        Ok(t) => t,
        Err(e) => return Err(Error::Addr(e)),
    };
    let sc = crate::text::chars_of(scheme);
    let is_https = chars_eq_str(sc.as_slice(), "https");
    let port = match port {
        Some(p) => p,
        None => if chars_eq_str(sc.as_slice(), "http") {
            80u16
        } else if is_https {
            443u16
        } else {
            return Err(Error::Config);
        },
    };
    let target = match &conf.fake_host {
        Some(f) => f.clone_host(),
        None => hostname.clone_host(),
    };
    Ok(
        TunnelPlan {
            addr: SocketAddr::new(hostname, port),
            connect_to: SocketAddr::new(target, port),
            tls: is_https,
            happy_eyeballs: conf.doh,
        },
    )
}

/// How a connection to a target is raced.
#[derive(Clone, Copy, Debug, PartialEq, Eq, Structural)]
pub enum RacePlan {
    /// One plain connect.
    Direct,
    /// AAAA then connect, A then connect, and a connect by name, at once;
    /// the first success wins.
    Race,
}

/// DoH answers are raced only for a domain target with DoH configured.
pub fn race_plan(doh_configured: bool, target: &SocketAddr) -> (r: RacePlan)
    ensures
        r == RacePlan::Race <==> (doh_configured && target.hostname@ is Domain),
{
    if !doh_configured || target.hostname.is_ipaddr() {
        RacePlan::Direct
    } else {
        RacePlan::Race
    }
}

/// Whether to warn, once the connect by name has succeeded, that DoH
/// resolved neither address family.
pub fn fallback_warning(v6_resolved: bool, v4_resolved: bool) -> (r: bool)
    ensures
        r == (!v6_resolved && !v4_resolved),
{
    !v6_resolved && !v4_resolved
}

} // verus!
