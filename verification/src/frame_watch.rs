//! Watches the overlay's frame loop for stalls: a loop silent for longer
//! than [`STALL_AFTER`] is reported, again every [`REPEAT_EVERY`] while it
//! stays silent, and its recovery is reported once.
use vstd::prelude::*;

verus! {

/// How long the loop may stay silent before it counts as stalled, in ms.
pub const STALL_AFTER: u64 = 3_000;

/// How often a stall that lasts is reported again, in ms.
pub const REPEAT_EVERY: u64 = 15_000;

/// What a look at the loop found worth saying.
#[derive(Debug, Clone, Copy, PartialEq, Eq, Structural)]
pub enum Verdict {
    Stalled { silent_ms: u64 },
    Ticking { silent_ms: u64 },
}

/// `a - b`, or zero where `b` is the larger.
pub open spec fn saturating_gap(a: u64, b: u64) -> u64 {
    if a >= b {
        (a - b) as u64
    } else {
        0
    }
}

/// Remembers when a stall was last reported.
#[derive(Debug, Clone, Copy, PartialEq, Eq, Structural)]
pub struct FrameWatch {
    pub told_at: Option<u64>,
}

impl Default for FrameWatch {
    fn default() -> (w: Self)
        ensures
            w.told_at is None,
    {
        FrameWatch { told_at: None }
    }
}

/// What [`FrameWatch::look`] answers, and when it last told of a stall
/// afterwards, from the time it last told and the two clock readings.
pub open spec fn look_spec(told_at: Option<u64>, now: u64, last_tick: u64) -> (
    Option<Verdict>,
    Option<u64>,
) {
    let silent_ms = saturating_gap(now, last_tick);
    if silent_ms < STALL_AFTER {
        match told_at {
            Some(_) => (Some(Verdict::Ticking { silent_ms }), None),
            None => (None, None),
        }
    } else {
        let due = match told_at {
            None => true,
            Some(told) => saturating_gap(now, told) >= REPEAT_EVERY,
        };
        if !due {
            (None, told_at)
        } else {
            (Some(Verdict::Stalled { silent_ms }), Some(now))
        }
    }
}

impl FrameWatch {
    /// Looks at the loop at `now`, its last tick at `last_tick`: a stall is
    /// told when it starts and again every [`REPEAT_EVERY`], and the first
    /// tick after a told stall is told once.
    pub fn look(&mut self, now: u64, last_tick: u64) -> (r: Option<Verdict>)
        ensures
            (r, final(self).told_at) == look_spec(old(self).told_at, now, last_tick),
    {
        let silent_ms = now.saturating_sub(last_tick);
        if silent_ms < STALL_AFTER {
            let told = self.told_at;
            self.told_at = None;
            return match told {
                Some(_) => Some(Verdict::Ticking { silent_ms }),
                None => None,
            };
        }
        let due = match self.told_at {
            None => true,
            Some(told) => now.saturating_sub(told) >= REPEAT_EVERY,
        };
        if !due {
            return None;
        }
        self.told_at = Some(now);
        Some(Verdict::Stalled { silent_ms })
    }
}

/// A loop that keeps ticking is never reported: each look with the tick
/// inside the stall window says nothing, however often it is made, until
/// a stall has been told.
pub proof fn ticking_loop_is_never_reported(now: u64, last_tick: u64)
    requires
        saturating_gap(now, last_tick) < STALL_AFTER,
    ensures
        look_spec(None, now, last_tick) == (None::<Verdict>, None::<u64>),
{
}

/// A stall is told once: looking again at the same moment, the loop still
/// silent, says nothing more.
pub proof fn a_stall_is_told_once(told_at: Option<u64>, now: u64, last_tick: u64)
    requires
        look_spec(told_at, now, last_tick).0 matches Some(Verdict::Stalled { .. }),
    ensures
        look_spec(look_spec(told_at, now, last_tick).1, now, last_tick).0 is None,
{
}

/// Every stall that was told ends in exactly one report of the loop
/// ticking again, after which the watch is back where it started.
pub proof fn a_told_stall_ends_in_one_recovery(told: u64, now: u64, last_tick: u64)
    requires
        saturating_gap(now, last_tick) < STALL_AFTER,
    ensures
        look_spec(Some(told), now, last_tick) == (
            Some(Verdict::Ticking { silent_ms: saturating_gap(now, last_tick) }),
            None::<u64>,
        ),
        look_spec(look_spec(Some(told), now, last_tick).1, now, last_tick).0 is None,
{
}

} // verus!
