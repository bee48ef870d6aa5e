//! The pulse that aims the actuator: its width grows evenly with the angle,
//! from the shortest pulse at the start of the range to the longest at its
//! end.

use vstd::prelude::*;

verus! {

/// Time from one pulse to the next, in milliseconds.
pub const PERIOD_MS: u64 = 20;

/// Width of the pulse for the start of the range, in microseconds.
pub const PULSE_MIN_US: u64 = 500;

/// Width of the pulse for the end of the range, in microseconds.
pub const PULSE_MAX_US: u64 = 2500;

/// The width, in microseconds, of the pulse for step `step` of `steps` equal
/// steps of the range, rounded down.
pub open spec fn pulse_at(step: int, steps: int) -> int {
    PULSE_MIN_US + ((PULSE_MAX_US - PULSE_MIN_US) * step) / steps
}

/// The width, in microseconds, of the pulse for step `step` of `steps` equal
/// steps of the range.
pub fn pulse_for_step(step: usize, steps: usize) -> (us: u64)
    requires
        steps >= 1,
        step <= steps,
    ensures
        us == pulse_at(step as int, steps as int),
        PULSE_MIN_US <= us <= PULSE_MAX_US,
        step == 0 ==> us == PULSE_MIN_US,
        step == steps ==> us == PULSE_MAX_US,
{
    let span: u128 = (PULSE_MAX_US - PULSE_MIN_US) as u128;
    let scaled: u128 = span * (step as u128);
    let add: u128 = scaled / (steps as u128);
    proof {
        assert(2000 * step <= 2000 * steps);
        assert((2000 * step) / (steps as int) <= 2000) by (nonlinear_arith)
            requires
                steps >= 1,
                0 <= 2000 * step <= 2000 * steps,
        ;
        assert((2000 * step) / (steps as int) >= 0) by (nonlinear_arith)
            requires
                steps >= 1,
                0 <= 2000 * step,
        ;
        if step == steps {
            assert((2000 * steps) / (steps as int) == 2000) by (nonlinear_arith)
                requires
                    steps >= 1,
            ;
        }
    }
    PULSE_MIN_US + (add as u64)
}

/// A later step never has a shorter pulse.
pub proof fn lemma_pulse_grows(a: int, b: int, steps: int)
    requires
        steps >= 1,
        0 <= a <= b,
    ensures
        pulse_at(a, steps) <= pulse_at(b, steps),
{
    assert((2000 * a) / steps <= (2000 * b) / steps) by (nonlinear_arith)
        requires
            steps >= 1,
            0 <= a <= b,
    ;
}

} // verus!
