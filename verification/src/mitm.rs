//! The per-connection dispatcher: how one inbound request is routed.
//!
//! A request without an authority is refused; a CONNECT for an
//! excluded host is tunneled raw; any other CONNECT is intercepted
//! with a leaf from the certificate cache; everything else goes
//! straight to the serve pipeline. The sockets, the TLS handshake and
//! the byte pumping stay outside the library.

use vstd::prelude::*;
use crate::cert::Authority;
use crate::exclusions::holds_host;
use crate::exclusions::LocalExclusionStore;

verus! {

/// Seconds allowed for the upstream TCP connect in tunnel mode.
pub const CONNECT_TIMEOUT_SECS: u64 = 10;

/// Seconds allowed for the TLS handshake when intercepting.
pub const TLS_HANDSHAKE_TIMEOUT_SECS: u64 = 5;

/// The port a tunnel connects to when the authority names none.
pub const DEFAULT_TUNNEL_PORT: u16 = 443;

/// What the dispatcher does with one inbound request.
#[derive(PartialEq, Eq, Structural, Clone, Copy, Debug)]
pub enum RequestRoute {
    /// No authority: answer `400` with an empty body.
    BadRequest,
    /// CONNECT for an excluded host: acknowledge with `200` and pump
    /// bytes raw, without minting a leaf for the session.
    Tunnel,
    /// CONNECT for any other host: acknowledge with `200`, terminate
    /// TLS with the authority's leaf, and serve the inner requests.
    Intercept,
    /// A plain proxied request: hand it to the serve pipeline.
    Serve,
}

/// Routes one inbound request from what the dispatcher knows about it:
/// whether an authority is present, whether the method is CONNECT, and
/// whether the exclusion store holds the authority's host.
pub fn route_request(
    has_authority: bool,
    method_is_connect: bool,
    host_excluded: bool,
) -> (r: RequestRoute)
    ensures
        !has_authority ==> r == RequestRoute::BadRequest,
        has_authority && method_is_connect && host_excluded ==> r == RequestRoute::Tunnel,
        has_authority && method_is_connect && !host_excluded ==> r == RequestRoute::Intercept,
        has_authority && !method_is_connect ==> r == RequestRoute::Serve,
{
    if !has_authority {
        RequestRoute::BadRequest
    } else if method_is_connect {
        if host_excluded {
            RequestRoute::Tunnel
        } else {
            RequestRoute::Intercept
        }
    } else {
        RequestRoute::Serve
    }
}

/// Routes one request against the exclusion store directly.
pub fn route_with_exclusions(
    authority: Option<&Authority>,
    method_is_connect: bool,
    exclusions: &LocalExclusionStore,
) -> (r: RequestRoute)
    ensures
        authority is None ==> r == RequestRoute::BadRequest,
        authority is Some && method_is_connect && holds_host(
            exclusions.hosts@,
            authority.unwrap().host@,
        ) ==> r == RequestRoute::Tunnel,
        authority is Some && method_is_connect && !holds_host(
            exclusions.hosts@,
            authority.unwrap().host@,
        ) ==> r == RequestRoute::Intercept,
        authority is Some && !method_is_connect ==> r == RequestRoute::Serve,
{
    match authority {
        None => route_request(false, method_is_connect, false),
        Some(a) => {
            let excluded = exclusions.contains(a.host.as_str());
            route_request(true, method_is_connect, excluded)
        },
    }
}

/// The port a tunnel dials: the authority's, or `443` when it names
/// none.
pub fn tunnel_port(authority: &Authority) -> (r: u16)
    ensures
        r == (match authority.port {
            Some(p) => p,
            None => DEFAULT_TUNNEL_PORT,
        }),
{
    match authority.port {
        Some(p) => p,
        None => DEFAULT_TUNNEL_PORT,
    }
}

} // verus!
