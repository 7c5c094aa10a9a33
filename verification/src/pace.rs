//! Fixed-timestep motion out of an accumulator: whole steps into the machine, whatever the frames.

use vstd::prelude::*;

verus! {

/// One step at thirty a second, in thirds of a microsecond: the unit in which it is whole.
pub const STEP: u64 = 100_000;

/// The most catch-up a slow frame may buy, so a stall doesn't fast-forward the machine.
pub const MOST_STEPS: u64 = 3;

/// What has been gathered toward the next step.
pub struct Pace {
    pub held: u64,
}

/// What is held once a frame of `dt` microseconds is in: no more than the most catch-up there is.
pub open spec fn gathered(held: u64, dt: i64) -> int {
    let sum = held + if dt > 0 {
        3 * dt
    } else {
        0
    };
    if sum < STEP * MOST_STEPS {
        sum
    } else {
        STEP * MOST_STEPS
    }
}

impl Pace {
    pub fn new() -> (p: Pace)
        ensures
            p.held == 0,
    {
        Pace { held: 0 }
    }

    /// Take a frame of `dt` microseconds in, and say how many whole steps it bought. A clock that
    /// steps back buys none.
    pub fn frame(&mut self, dt: i64) -> (steps: u64)
        ensures
            steps == gathered(old(self).held, dt) / (STEP as int),
            final(self).held == gathered(old(self).held, dt) % (STEP as int),
    {
        let most: u64 = 300_000;
        let more: u64 = if dt <= 0 {
            0
        } else if dt > 100_000 {
            most
        } else {
            3 * dt as u64
        };
        let sum: u64 = if self.held >= most || self.held + more > most {
            most
        } else {
            self.held + more
        };
        assert(STEP * MOST_STEPS == 300_000) by (nonlinear_arith)
            requires
                STEP == 100_000,
                MOST_STEPS == 3,
        ;
        assert(sum == gathered(self.held, dt));
        self.held = sum % 100_000;
        sum / 100_000
    }
}

/// No frame buys more than the most catch-up, less than a step is ever held over, and a frame that
/// is not a stall loses nothing.
pub proof fn a_frame_is_spent_in_whole_steps(held: u64, dt: i64)
    requires
        held < STEP,
    ensures
        ({
            let (steps, rest) = (
                gathered(held, dt) / (STEP as int),
                gathered(held, dt) % (STEP as int),
            );
            &&& 0 <= steps <= MOST_STEPS
            &&& 0 <= rest < STEP
            &&& 0 <= dt && held + 3 * dt <= 300_000 ==> STEP * steps + rest == held + 3 * dt
        }),
{
    assert(STEP * MOST_STEPS == 300_000) by (nonlinear_arith)
        requires
            STEP == 100_000,
            MOST_STEPS == 3,
    ;
}

/// A frame that would play more than three steps plays three and drops the rest, and one in which no
/// time passed plays what was held over.
pub proof fn a_long_frame_plays_three_steps(held: u64, dt: i64)
    requires
        held < STEP,
    ensures
        0 <= dt && held + 3 * dt >= 300_000 ==> gathered(held, dt) == 300_000,
        dt <= 0 ==> gathered(held, dt) == held,
{
}

} // verus!
