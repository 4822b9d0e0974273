//! Scalar gain as a whole number of millionths of full scale.

use vstd::prelude::*;

verus! {

/// Silence.
pub const ZERO: u32 = 0;

/// Full scale: the level that stands for a gain of one.
pub const FULL: u32 = 1_000_000;

/// The level reached from `level` by `delta`, held within `ZERO..=FULL`.
pub open spec fn shifted(level: u32, delta: i32) -> u32 {
    if level + delta < ZERO {
        ZERO
    } else if level + delta > FULL {
        FULL
    } else {
        (level + delta) as u32
    }
}

/// Moves `level` by `delta` and clamps the sum to `ZERO..=FULL`.
pub fn shift(level: u32, delta: i32) -> (next: u32)
    ensures
        next == shifted(level, delta),
        ZERO <= next <= FULL,
{
    let sum: i64 = level as i64 + delta as i64;
    if sum < 0 {
        ZERO
    } else if sum > FULL as i64 {
        FULL
    } else {
        sum as u32
    }
}

/// The level reached from `level` by moving `times` times by `delta`.
pub open spec fn shifted_times(level: u32, delta: i32, times: nat) -> u32
    decreases times,
{
    if times == 0 {
        level
    } else {
        shifted(shifted_times(level, delta, (times - 1) as nat), delta)
    }
}

/// Moving a level repeatedly by the same amount never leaves full scale: it
/// reaches what one move by the whole distance reaches, so it runs into the
/// bound it moves towards and stays there.
pub proof fn lemma_shifted_times(level: u32, delta: i32, times: nat)
    requires
        level <= FULL,
    ensures
        ZERO <= shifted_times(level, delta, times) <= FULL,
        shifted_times(level, delta, times) == if level + times * delta < ZERO {
            ZERO as int
        } else if level + times * delta > FULL {
            FULL as int
        } else {
            level + times * delta
        },
        delta > 0 && times * delta >= FULL ==> shifted_times(level, delta, times) == FULL,
        delta < 0 && times * delta <= -FULL ==> shifted_times(level, delta, times) == ZERO,
    decreases times,
{
    if times > 0 {
        lemma_shifted_times(level, delta, (times - 1) as nat);
        assert(times * delta == (times - 1) * delta + delta) by (nonlinear_arith);
        if delta >= 0 {
            assert((times - 1) * delta >= 0) by (nonlinear_arith)
                requires
                    times >= 1,
                    delta >= 0,
            ;
        } else {
            assert((times - 1) * delta <= 0) by (nonlinear_arith)
                requires
                    times >= 1,
                    delta < 0,
            ;
        }
    }
}

} // verus!
