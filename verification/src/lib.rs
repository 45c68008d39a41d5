//! A forwarding HTTP proxy core that rewrites traffic in flight according to
//! user-supplied injection rules keyed by destination domain.
//!
//! The crate holds the verified pipeline: domain-pattern matching, the script
//! registry that maps a domain to applicable rules, the injection engine that
//! mutates request/response headers and bodies, and the decision logic of the
//! forwarding/tunnel protocol layer. Network and file I/O live outside.

pub mod config;
pub mod headers;
pub mod http_injector;
pub mod proxy;
pub mod script_manager;
pub mod text;

use vstd::prelude::*;

verus! {

/// A proxy failure that is surfaced to the client as an error page.
#[derive(Clone, Copy, Debug)]
pub enum ProxyError {
    /// The client IP or the target domain is denied by policy (403).
    PolicyDenied,
    /// Forwarding to the upstream server exceeded the configured timeout (500).
    UpstreamTimeout,
    /// The upstream connection or request failed (500).
    UpstreamConnectFailed,
    /// A mutated header is not a syntactically valid protocol header (500).
    HeaderEncodingError,
    /// The CONNECT target was unreachable (non-200 reply, connection closed).
    TunnelEstablishFailed,
}

} // verus!
