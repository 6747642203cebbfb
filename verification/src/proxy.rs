//! What the proxy does with each client connection.
use vstd::prelude::*;

verus! {

/// What to do with an accepted client connection.
#[derive(Debug, Clone, Copy, PartialEq, Eq, Structural)]
pub enum ConnectionPlan {
    /// Relay it to the origin server, first sending a PROXY protocol header
    /// when `proxy_protocol` is set.
    Forward { proxy_protocol: bool },
    /// Answer it with the fallback server.
    ServeSorry,
    /// Close it.
    Close,
}

/// The plan for a client connection: relay it while the origin server is
/// healthy, else answer it with the fallback server where one is
/// configured, else close it.
pub fn plan_connection(healthy: bool, proxy_protocol: bool, has_sorry_server: bool) -> (p: ConnectionPlan)
    ensures
        p == (if healthy {
            ConnectionPlan::Forward { proxy_protocol }
        } else if has_sorry_server {
            ConnectionPlan::ServeSorry
        } else {
            ConnectionPlan::Close
        }),
{
    if healthy {
        ConnectionPlan::Forward { proxy_protocol }
    } else if has_sorry_server {
        ConnectionPlan::ServeSorry
    } else {
        ConnectionPlan::Close
    }
}

/// Whether the proxy logs that the origin server is down when it takes a
/// connection: when it is down and its health changed since the last one.
pub fn logs_server_down(healthy: bool, health_changed: bool) -> (r: bool)
    ensures
        r == (!healthy && health_changed),
{
    !healthy && health_changed
}

} // verus!
