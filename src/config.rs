use crate::addr::SocketAddr;
use vstd::prelude::*;

verus! {

/// One configured outbound proxy: `protocol` is `[layer+…+]base`, with
/// `base` one of `http`, `socks4`, `socks5` and each layer `tls`.
#[derive(Clone, Debug)]
pub struct ProxyConfig {
    pub protocol: String,
    pub user: Option<String>,
    pub password: Option<String>,
    pub server: String,
}

/// The DNS-over-HTTPS endpoint, and optionally a host to connect to in its place.
#[derive(Clone, Debug)]
pub struct DoHConfig {
    pub endpoint: String,
    pub fake_host: Option<String>,
}

/// Transparent listeners and the redirect type they use.
#[derive(Clone, Debug)]
pub struct TProxy {
    pub listen: Vec<SocketAddr>,
    pub redir_type: Option<String>,
}

/// Everything the proxy core is configured with. `fragment` is `1` to force
/// ClientHello fragmentation on, `2` to force it off, absent for the default.
#[derive(Clone, Debug)]
pub struct Config {
    pub proxies: Option<Vec<ProxyConfig>>,
    pub doh: Option<DoHConfig>,
    pub http_listen: Option<Vec<SocketAddr>>,
    pub tproxy_listen: Option<TProxy>,
    pub dns_listen: Option<Vec<SocketAddr>>,
    pub fragment: Option<u8>,
}

} // verus!
