use vstd::prelude::*;

verus! {

/// Why building or dispatching a request failed.
#[derive(Clone, Copy, Debug, PartialEq, Eq, Structural)]
pub enum HttpError {
    /// A `host:port` string resolved to no endpoint.
    AddressResolution,
    /// The TLS capability could not be set up.
    TlsSetup,
    /// The TCP connection could not be opened.
    Connect,
    /// The TLS handshake with the target failed.
    TlsHandshake,
    /// Reading or writing failed part way through a transfer.
    Io,
    /// The proxy answered the CONNECT request without a `200` status.
    ProxyTunnelRejected,
}

} // verus!
