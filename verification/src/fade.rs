//! The fade scheduler's per-tick computation.
//!
//! A fade session holds the immutable elapsed target of one playback run.
//! On each tick the surrounding program reads the wall clock, turns it into
//! whole elapsed seconds since the session started, and asks the session for
//! the volume to emit: the fade curve applied to the progress ratio
//! elapsed / target. A target of zero counts as progress already complete,
//! and progress beyond one whole unit is tolerated and yields exactly zero.

use crate::duration_parse::TimeInterval;
use crate::volume::{curve_micro, lemma_curve_monotone, volume_curve, VOLUME_UNIT};
use vstd::arithmetic::div_mod::{
    lemma_div_is_ordered, lemma_div_multiples_vanish, lemma_multiply_divide_lt,
};
use vstd::arithmetic::mul::lemma_mul_inequality;
use vstd::prelude::*;

verus! {

/// The progress ratio elapsed / target, in micro-units; one whole unit when
/// the target is zero.
pub open spec fn progress_micro(elapsed: int, target: int) -> int {
    if target <= 0 {
        VOLUME_UNIT as int
    } else {
        elapsed * VOLUME_UNIT / target
    }
}

/// The read-only state of one playback run: its elapsed target in whole
/// seconds. The start instant stays with the caller, which hands in elapsed
/// time as a plain value.
pub struct FadeSession {
    target_secs: u64,
}

impl FadeSession {
    /// The elapsed target in whole seconds.
    pub closed spec fn target(&self) -> int {
        self.target_secs as int
    }

    /// Starts a session that fades out over the given number of seconds.
    pub fn new(target_secs: u64) -> (r: FadeSession)
        ensures
            r.target() == target_secs,
    {
        FadeSession { target_secs }
    }

    /// Starts a session over a parsed duration expression.
    pub fn from_interval(interval: &TimeInterval) -> (r: FadeSession)
        requires
            interval.wf(),
        ensures
            r.target() == interval.total(),
    {
        FadeSession { target_secs: interval.total_seconds() }
    }

    /// The volume to emit on a tick, in micro-units: the fade curve applied
    /// to the progress the given elapsed seconds amount to.
    pub fn volume_at(&self, elapsed_secs: u64) -> (v: u64)
        ensures
            v as int == curve_micro(progress_micro(elapsed_secs as int, self.target())),
            v <= VOLUME_UNIT,
    {
        if self.target_secs == 0 || elapsed_secs >= self.target_secs {
            proof {
                lemma_progress_complete(elapsed_secs as int, self.target());
            }
            0
        } else {
            proof {
                let e = elapsed_secs as int;
                assert(0 <= e * (VOLUME_UNIT as int) <= u64::MAX as int * (VOLUME_UNIT as int))
                    by (nonlinear_arith)
                    requires 0 <= e <= u64::MAX as int;
            }
            let p_wide: u128 = elapsed_secs as u128 * (VOLUME_UNIT as u128)
                / (self.target_secs as u128);
            proof {
                let e = elapsed_secs as int;
                let t = self.target() as int;
                lemma_mul_inequality(e, t - 1, VOLUME_UNIT as int);
                lemma_multiply_divide_lt(e * VOLUME_UNIT, t, VOLUME_UNIT as int);
                assert((t - 1) * VOLUME_UNIT < t * (VOLUME_UNIT as int)) by (nonlinear_arith)
                    requires t >= 1;
            }
            volume_curve(p_wide as u64)
        }
    }
}

/// At or past the target (and always when the target is zero) progress is at
/// least one whole unit, so the emitted volume is exactly zero.
pub proof fn lemma_progress_complete(elapsed: int, target: int)
    requires
        elapsed >= target || target <= 0,
        elapsed >= 0,
    ensures
        progress_micro(elapsed, target) >= VOLUME_UNIT,
        curve_micro(progress_micro(elapsed, target)) == 0,
{
    if target > 0 {
        lemma_mul_inequality(target, elapsed, VOLUME_UNIT as int);
        lemma_div_is_ordered(target * VOLUME_UNIT, elapsed * VOLUME_UNIT, target);
        lemma_div_multiples_vanish(VOLUME_UNIT as int, target);
        assert(target * VOLUME_UNIT == target * (VOLUME_UNIT as int));
    }
}

/// Law: the scheduler's output never rises as elapsed time grows; the same
/// session emits a monotonically non-increasing volume sequence.
pub proof fn lemma_fade_monotone(target: int, e1: int, e2: int)
    requires
        0 <= e1 <= e2,
    ensures
        curve_micro(progress_micro(e2, target)) <= curve_micro(progress_micro(e1, target)),
{
    if target > 0 {
        lemma_mul_inequality(e1, e2, VOLUME_UNIT as int);
        lemma_div_is_ordered(e1 * VOLUME_UNIT, e2 * VOLUME_UNIT, target);
    }
    lemma_curve_monotone(progress_micro(e1, target), progress_micro(e2, target));
}

} // verus!
