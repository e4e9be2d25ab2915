use crate::addr::AddrError;
use vstd::prelude::*;

verus! {

/// What went wrong, by kind.
#[derive(Clone, Copy, Debug, PartialEq, Eq, Structural)]
pub enum Error {
    /// Malformed or unexpected wire data from a peer.
    Protocol,
    /// A configuration or request value that cannot be used.
    Config,
    /// An address text that cannot be read.
    Addr(AddrError),
    /// A DNS query or answer that cannot be had.
    Dns,
    /// Something the platform or this proxy does not support.
    Unsupported,
}

} // verus!
