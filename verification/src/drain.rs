//! Draining: how long the edge lingers, and the one-way switch that starts it.
use vstd::prelude::*;

use crate::error::{blame, refused, EdgeError};

verus! {

/// How long a draining edge waits, in the whole seconds that the server counts in.
#[derive(Clone, Copy, Debug, PartialEq, Eq, Structural)]
pub struct EdgeDrainConfig {
    pub grace_period_seconds: u64,
    pub graceful_shutdown_timeout_seconds: u64,
}

/// Milliseconds rounded up to seconds, where the sum before the division stops at
/// the largest number.
pub open spec fn grace_seconds(millis: u64) -> int {
    (if millis + 999 > u64::MAX { u64::MAX as int } else { millis + 999 }) / 1000
}

impl EdgeDrainConfig {
    pub fn from_millis(name: &'static str, millis: u64) -> (r: Result<EdgeDrainConfig, EdgeError>)
        ensures
            r is Ok <==> millis > 0,
            r matches Ok(c) ==> c.grace_period_seconds == grace_seconds(millis)
                && c.graceful_shutdown_timeout_seconds == 0,
            millis == 0 ==> refused(r, name@, "drain grace must be greater than zero"@),
    {
        if millis == 0 {
            return Err(blame(name, "drain grace must be greater than zero"));
        }
        let seconds: u64 = millis.saturating_add(999) / 1000;
        Ok(EdgeDrainConfig { grace_period_seconds: seconds, graceful_shutdown_timeout_seconds: 0 })
    }
}

/// A grace period is never cut short and never a whole second too long, short of
/// the very top of the range.
pub proof fn grace_covers_the_request(millis: u64)
    requires
        0 < millis <= u64::MAX - 999,
    ensures
        grace_seconds(millis) * 1000 >= millis,
        (grace_seconds(millis) - 1) * 1000 < millis,
        grace_seconds(millis) >= 1,
{
}

/// Whether the edge is draining.
#[derive(Clone, Copy, Debug, PartialEq, Eq, Structural)]
pub struct DrainState {
    draining: bool,
}

impl DrainState {
    pub closed spec fn view(&self) -> bool {
        self.draining
    }

    pub fn new() -> (s: DrainState)
        ensures
            !s@,
    {
        DrainState { draining: false }
    }

    pub fn is_draining(&self) -> (r: bool)
        ensures
            r == self@,
    {
        self.draining
    }

    pub fn begin_drain(&mut self)
        ensures
            final(self)@,
    {
        self.draining = true;
    }

    /// One look at the server's shutdown signal: a raised signal starts the drain and
    /// ends the watch, and nothing ever switches a drain off.
    pub fn observe_shutdown(&mut self, raised: bool) -> (done: bool)
        ensures
            done == raised,
            final(self)@ == (old(self)@ || raised),
    {
        if raised {
            self.begin_drain();
        }
        raised
    }
}

} // verus!
