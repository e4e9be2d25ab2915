//! Verified core of a local forward proxy: address and URI handling, the
//! outbound chain model, proxy handshake framing, the TLS ClientHello
//! fragmenter, DNS-over-HTTPS helpers and transparent-redirect decisions.

pub mod addr;
pub mod chain;
pub mod config;
pub mod dns;
pub mod error;
pub mod forward;
pub mod fragment;
pub mod http;
pub mod num;
pub mod redir;
pub mod socks4;
pub mod socks5;
pub mod text;
pub mod uri;
