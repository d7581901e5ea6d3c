//! Spacing of the Xtream API requests: a minimum interval between the starts
//! of two requests, process-wide.  Times are nanoseconds on a monotonic clock.

use vstd::prelude::*;

verus! {

/// What a request does on a turn of the pacer.
#[derive(Clone, Copy, Debug, PartialEq, Eq, Structural)]
pub enum PaceStep {
    /// Start now; the start is recorded.
    Start,
    /// Sleep this many nanoseconds, then ask again.
    Wait(u64),
}

/// The pacer's state: the interval and the start of the last request
/// (`None` until the first one, which is not delayed).
pub struct UpstreamPacer {
    pub min_interval_nanos: u64,
    pub last_start: Option<u64>,
}

/// When the next request may start.
pub open spec fn earliest_start(p: UpstreamPacer, now: u64) -> int {
    match p.last_start {
        Some(t) => t + p.min_interval_nanos,
        None => now as int,
    }
}

/// The clock can represent the earliest start (adding the interval to an
/// instant panics otherwise).
pub open spec fn pacer_ready(p: UpstreamPacer) -> bool {
    match p.last_start {
        Some(t) => t + p.min_interval_nanos <= u64::MAX,
        None => true,
    }
}

impl UpstreamPacer {
    /// A pacer with no request started yet.
    pub fn new(min_interval_nanos: u64) -> (p: Self)
        ensures
            p.min_interval_nanos == min_interval_nanos,
            p.last_start is None,
    {
        UpstreamPacer { min_interval_nanos, last_start: None }
    }

    /// Number of requests allowed in flight: `max_inflight`, at least 1.
    pub fn permits(max_inflight: u32) -> (n: u32)
        ensures
            n == if max_inflight == 0 {
                1
            } else {
                max_inflight
            },
    {
        if max_inflight == 0 {
            1
        } else {
            max_inflight
        }
    }

    /// One turn at time `now`: start when the interval since the last start
    /// has passed (and record `now`), else wait for the rest of it.
    pub fn step(&mut self, now: u64) -> (r: PaceStep)
        requires
            pacer_ready(*old(self)),
        ensures
            (*final(self), r) == spec_step(*old(self), now),
    {
        let earliest = match self.last_start {
            Some(t) => t + self.min_interval_nanos,
            None => now,
        };
        if now >= earliest {
            self.last_start = Some(now);
            PaceStep::Start
        } else {
            PaceStep::Wait(earliest - now)
        }
    }
}

/// A turn at `now`: the new state and what the request does.
pub open spec fn spec_step(p: UpstreamPacer, now: u64) -> (UpstreamPacer, PaceStep) {
    if now >= earliest_start(p, now) {
        (UpstreamPacer { min_interval_nanos: p.min_interval_nanos, last_start: Some(now) }, PaceStep::Start)
    } else {
        (p, PaceStep::Wait((earliest_start(p, now) - now) as u64))
    }
}

/// Two starts are at least the interval apart: after a request starts at
/// `t`, a turn at any time before `t + min_interval` waits exactly until
/// then and leaves the state as it was, and a turn that starts comes at
/// `t + min_interval` or later.
pub proof fn law_starts_are_spaced(p: UpstreamPacer, t: u64, now: u64)
    requires
        pacer_ready(p),
        spec_step(p, t).1 == PaceStep::Start,
        pacer_ready(spec_step(p, t).0),
    ensures
        now < t + p.min_interval_nanos ==> spec_step(spec_step(p, t).0, now) == (
            spec_step(p, t).0,
            PaceStep::Wait((t + p.min_interval_nanos - now) as u64),
        ),
        spec_step(spec_step(p, t).0, now).1 == PaceStep::Start ==> now >= t + p.min_interval_nanos,
{
}

/// The first request never waits.
pub proof fn law_first_request_starts(min_interval_nanos: u64, now: u64)
    ensures
        spec_step(UpstreamPacer { min_interval_nanos, last_start: None }, now).1 == PaceStep::Start,
{
}

} // verus!
