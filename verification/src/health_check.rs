//! What the health checker of an origin server decides after each check.
use vstd::prelude::*;

verus! {

/// The message that the checker logs: the server came up, or went down.
#[derive(Debug, Clone, Copy, PartialEq, Eq, Structural)]
pub enum HealthReport {
    Up,
    Down,
}

/// What to do after one check: what to log, if anything, and the health
/// to publish to the proxies.
#[derive(Debug, Clone, Copy, PartialEq, Eq, Structural)]
pub struct HealthDecision {
    pub log: Option<HealthReport>,
    pub publish: bool,
}

/// The report for a health.
pub open spec fn report_of(healthy: bool) -> HealthReport {
    if healthy {
        HealthReport::Up
    } else {
        HealthReport::Down
    }
}

/// One step of the checker on the health last reported (`None` before the
/// first check): the report to log, and the health reported afterwards.
pub open spec fn health_step(last: Option<bool>, healthy: bool) -> (Option<HealthReport>, Option<bool>) {
    if last == Some(healthy) {
        (None, last)
    } else {
        (Some(report_of(healthy)), Some(healthy))
    }
}

/// The state of the checker of one server.
pub struct HealthTracker {
    init: bool,
    history_is_healthy: bool,
}

impl View for HealthTracker {
    /// The health last reported, `None` before the first check.
    type V = Option<bool>;

    closed spec fn view(&self) -> Option<bool> {
        if self.init {
            None
        } else {
            Some(self.history_is_healthy)
        }
    }
}

impl HealthTracker {
    /// A checker that has not checked yet.
    pub fn new() -> (t: Self)
        ensures
            t@ == None::<bool>,
    {
        HealthTracker { init: true, history_is_healthy: false }
    }

    /// Takes the outcome of one check. The health is published every time;
    /// a report is logged on the first check and whenever the health
    /// differs from the one last reported.
    pub fn observe(&mut self, healthy: bool) -> (d: HealthDecision)
        ensures
            d.publish == healthy,
            d.log == health_step(old(self)@, healthy).0,
            final(self)@ == health_step(old(self)@, healthy).1,
    {
        if healthy {
            if self.init || !self.history_is_healthy {
                self.history_is_healthy = true;
                self.init = false;
                HealthDecision { log: Some(HealthReport::Up), publish: true }
            } else {
                HealthDecision { log: None, publish: true }
            }
        } else {
            if self.init || self.history_is_healthy {
                self.history_is_healthy = false;
                self.init = false;
                HealthDecision { log: Some(HealthReport::Down), publish: false }
            } else {
                HealthDecision { log: None, publish: false }
            }
        }
    }
}

/// The checker logs the first check, whatever it finds; after a check the
/// health last reported is the one found; and a second check that finds the
/// same health logs nothing.
pub proof fn lemma_health_reports_changes_only(last: Option<bool>, healthy: bool)
    ensures
        health_step(None, healthy).0 == Some(report_of(healthy)),
        health_step(last, healthy).1 == Some(healthy),
        health_step(health_step(last, healthy).1, healthy).0 == None::<HealthReport>,
        health_step(last, healthy).0 is Some <==> last != Some(healthy),
{
}

} // verus!
