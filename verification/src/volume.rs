//! The fade curve: a pure map from a progress ratio to a volume level.
//!
//! Volumes and progress ratios are exact fixed-point values in micro-units:
//! `VOLUME_UNIT` micro-units stand for the ratio 1.0. The curve feeds the
//! complement of the progress into a cubic and clamps the result into
//! `[0, VOLUME_UNIT]`: full volume at progress 0, a slow decay at first that
//! accelerates toward silence, and exactly zero only at and beyond
//! progress 1. An exact zero is the silence-stop trigger, so where the cubic
//! would round down to nothing before the window ends, the curve holds one
//! micro-unit instead.

use vstd::arithmetic::div_mod::{lemma_div_is_ordered, lemma_div_pos_is_pos};
use vstd::prelude::*;

verus! {

/// One whole unit of volume or of progress: the fixed-point image of 1.0.
pub const VOLUME_UNIT: u64 = 1_000_000;

/// The cube of the scale, the divisor that brings a cubed micro-unit value
/// back to micro-units.
pub const CUBE_SCALE: u64 = 1_000_000_000_000;

/// The fade curve on a progress ratio `p` in micro-units:
/// `clamp((1 - p)^3, 0, 1)` carried out in fixed point, with the sub-unit
/// branch held at no less than one micro-unit so that the curve reaches
/// zero only at and beyond one whole unit of progress.
pub open spec fn curve_micro(p: int) -> int {
    if p >= VOLUME_UNIT {
        0
    } else if p < 0 {
        VOLUME_UNIT as int
    } else {
        let c = ((VOLUME_UNIT - p) * (VOLUME_UNIT - p) * (VOLUME_UNIT - p)) / (CUBE_SCALE as int);
        if c == 0 {
            1
        } else {
            c
        }
    }
}

/// Computes the fade curve: the volume, in micro-units, for a progress
/// ratio given in micro-units. Progress beyond one whole unit is tolerated
/// and yields exactly zero; any progress short of it yields a positive
/// volume.
pub fn volume_curve(progress: u64) -> (v: u64)
    ensures
        v as int == curve_micro(progress as int),
        v <= VOLUME_UNIT,
{
    proof { lemma_curve_bounds(progress as int); }
    if progress >= VOLUME_UNIT {
        0
    } else {
        let q: u64 = VOLUME_UNIT - progress;
        proof {
            assert((q as int) * (q as int) <= CUBE_SCALE
                && 0 <= (q as int) * (q as int) * (q as int) <= CUBE_SCALE * VOLUME_UNIT) by (nonlinear_arith)
                requires 0 <= q as int <= VOLUME_UNIT;
        }
        let cube: u64 = q * q * q;
        let v: u64 = cube / CUBE_SCALE;
        if v == 0 {
            1
        } else {
            v
        }
    }
}

/// The curve starts at full volume and is exactly zero at and beyond one
/// whole unit of progress.
pub proof fn lemma_curve_endpoints()
    ensures
        curve_micro(0) == VOLUME_UNIT,
        forall|p: int| p >= VOLUME_UNIT ==> curve_micro(p) == 0,
{
    assert((VOLUME_UNIT as int) * (VOLUME_UNIT as int) * (VOLUME_UNIT as int)
        / (CUBE_SCALE as int) == VOLUME_UNIT) by (nonlinear_arith);
}

/// The curve reaches zero only at and beyond one whole unit of progress:
/// short of it, the emitted volume is still positive, so the fade alone
/// cannot trigger a silence stop early.
pub proof fn lemma_curve_positive_before_end(p: int)
    requires
        0 <= p < VOLUME_UNIT,
    ensures
        curve_micro(p) > 0,
{
    let q = VOLUME_UNIT - p;
    assert(0 <= q * q * q) by (nonlinear_arith)
        requires 0 <= q;
    lemma_div_pos_is_pos(q * q * q, CUBE_SCALE as int);
}

/// The curve never leaves `[0, VOLUME_UNIT]`.
pub proof fn lemma_curve_bounds(p: int)
    ensures
        0 <= curve_micro(p) <= VOLUME_UNIT,
{
    if 0 <= p < VOLUME_UNIT {
        let q = VOLUME_UNIT - p;
        assert(0 <= q * q * q <= CUBE_SCALE * VOLUME_UNIT) by (nonlinear_arith)
            requires 0 <= q <= VOLUME_UNIT;
        lemma_div_pos_is_pos(q * q * q, CUBE_SCALE as int);
        lemma_div_is_ordered(q * q * q, CUBE_SCALE * VOLUME_UNIT, CUBE_SCALE as int);
        assert((CUBE_SCALE * VOLUME_UNIT) / (CUBE_SCALE as int) == VOLUME_UNIT) by (nonlinear_arith);
    }
}

/// The curve is monotonically non-increasing: more progress never raises
/// the volume.
pub proof fn lemma_curve_monotone(p1: int, p2: int)
    requires
        p1 <= p2,
    ensures
        curve_micro(p2) <= curve_micro(p1),
{
    lemma_curve_bounds(p1);
    lemma_curve_bounds(p2);
    if 0 <= p1 && p2 < VOLUME_UNIT {
        let q1 = VOLUME_UNIT - p1;
        let q2 = VOLUME_UNIT - p2;
        assert(q2 * q2 * q2 <= q1 * q1 * q1) by (nonlinear_arith)
            requires 0 <= q2 <= q1;
        lemma_div_is_ordered(q2 * q2 * q2, q1 * q1 * q1, CUBE_SCALE as int);
        lemma_div_pos_is_pos(q2 * q2 * q2, CUBE_SCALE as int);
    }
}

} // verus!
