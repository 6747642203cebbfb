//! The parts of the configuration that the proxy's logic reads.
use vstd::prelude::*;
use vstd::string::StringExecFns;

verus! {

/// The port of an origin server whose address names none.
pub const DEFAULT_PORT: u16 = 25565;

/// What the fallback ("sorry") server says.
#[derive(Debug, Clone)]
pub struct SorryServerConfig {
    /// The text shown next to the ping bars.
    pub version: String,
    /// The message of the day, one string per line.
    pub motd: Vec<String>,
    /// The message that a player who tries to join is disconnected with.
    pub kick_message: Vec<String>,
}

/// How the origin servers are checked.
#[derive(Debug, Clone, Copy)]
pub struct HealthCheck {
    pub enabled: bool,
    pub interval_sec: u64,
    pub timeout_sec: u64,
    pub max_failures: u8,
}

impl Default for HealthCheck {
    /// Checking is off; when on, every five seconds, with a two-second
    /// timeout.
    fn default() -> (r: Self)
        ensures
            r.enabled == false,
            r.interval_sec == 5,
            r.timeout_sec == 2,
            r.max_failures == 3,
    {
        HealthCheck { enabled: false, interval_sec: 5, timeout_sec: 2, max_failures: 3 }
    }
}

/// The duration of `secs` whole seconds, as `Duration::from_secs` makes it.
pub uninterp spec fn duration_of_secs(secs: u64) -> core::time::Duration;

/// `Duration::from_secs`: its result is named by `duration_of_secs`.
#[verifier::external_body]
fn duration_from_secs(secs: u64) -> (d: core::time::Duration)
    ensures
        d == duration_of_secs(secs),
{
    core::time::Duration::from_secs(secs)
}

impl HealthCheck {
    /// The time between two checks.
    pub fn interval(&self) -> (d: core::time::Duration)
        ensures
            d == duration_of_secs(self.interval_sec),
    {
        duration_from_secs(self.interval_sec)
    }

    /// How long one check may take.
    pub fn timeout(&self) -> (d: core::time::Duration)
        ensures
            d == duration_of_secs(self.timeout_sec),
    {
        duration_from_secs(self.timeout_sec)
    }
}

/// The origin address with the default port appended, to be tried where
/// the address as written names no port.
pub fn host_with_default_port(host: &str) -> (r: String)
    ensures
        r@ == host@ + seq![':', '2', '5', '5', '6', '5'],
{
    let suffix = ":25565";
    proof {
        reveal_strlit(":25565");
    }
    let mut r = String::from_str(host);
    r.append(suffix);
    r
}

} // verus!
