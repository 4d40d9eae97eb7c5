use vstd::prelude::*;

verus! {

/// How many whole fixed steps of length `dt` fit in `acc + elapsed`.
pub open spec fn steps_due(acc: nat, elapsed: nat, dt: nat) -> nat
    recommends
        dt > 0,
{
    (acc + elapsed) / dt
}

/// What is left of `acc + elapsed` after the whole steps of length `dt`.
pub open spec fn time_left(acc: nat, elapsed: nat, dt: nat) -> nat
    recommends
        dt > 0,
{
    (acc + elapsed) % dt
}

/// Accumulates elapsed time, in nanoseconds, and hands it out as whole fixed
/// steps; the remainder is kept for the next frame and for extrapolation.
pub struct FixedStepper {
    accumulator: u64,
    time_step: u64,
}

impl FixedStepper {
    /// The time accumulated and not yet stepped.
    pub closed spec fn accumulator(&self) -> nat {
        self.accumulator as nat
    }

    /// The length of one fixed step.
    pub closed spec fn time_step(&self) -> nat {
        self.time_step as nat
    }

    /// The step is positive and the accumulator holds less than one step.
    pub closed spec fn wf(&self) -> bool {
        self.time_step > 0 && self.accumulator < self.time_step
    }

    /// A stepper with an empty accumulator and steps of `time_step` nanoseconds.
    pub fn new(time_step: u64) -> (r: FixedStepper)
        requires
            time_step > 0,
        ensures
            r.wf(),
            r.accumulator() == 0,
            r.time_step() == time_step,
    {
        FixedStepper { accumulator: 0, time_step }
    }

    /// The time accumulated and not yet stepped: the extrapolation time.
    pub fn leftover(&self) -> (r: u64)
        ensures
            r == self.accumulator(),
    {
        self.accumulator
    }

    /// The length of one fixed step.
    pub fn step_length(&self) -> (r: u64)
        ensures
            r == self.time_step(),
    {
        self.time_step
    }

    /// Adds `elapsed` nanoseconds and returns how many fixed steps to run now;
    /// the accumulator keeps what is left, less than one step.
    pub fn advance(&mut self, elapsed: u64) -> (steps: u64)
        requires
            old(self).wf(),
        ensures
            final(self).wf(),
            final(self).time_step() == old(self).time_step(),
            steps == steps_due(old(self).accumulator(), elapsed as nat, old(self).time_step()),
            final(self).accumulator() == time_left(
                old(self).accumulator(),
                elapsed as nat,
                old(self).time_step(),
            ),
    {
        let total: u128 = self.accumulator as u128 + elapsed as u128;
        let dt: u128 = self.time_step as u128;
        let steps: u128 = total / dt;
        let left: u128 = total % dt;
        proof {
            let a = self.accumulator as int;
            let e = elapsed as int;
            let d = dt as int;
            assert(steps <= u64::MAX) by {
                if d == 1 {
                    assert(a == 0);
                    assert(total / 1 == total);
                } else {
                    assert(d >= 2);
                    assert((a + e) / d <= (a + e) / 2) by {
                        vstd::arithmetic::div_mod::lemma_div_is_ordered_by_denominator(
                            a + e,
                            2,
                            d,
                        );
                    }
                }
            }
        }
        self.accumulator = left as u64;
        steps as u64
    }
}

/// With a frame time of `k` whole steps, each frame runs exactly `k` steps
/// and the accumulator comes back to the value it had (zero, from a fresh
/// stepper).
pub proof fn lemma_whole_steps_per_frame(acc: nat, k: nat, dt: nat)
    requires
        dt > 0,
        acc < dt,
    ensures
        steps_due(acc, k * dt, dt) == k,
        time_left(acc, k * dt, dt) == acc,
{
    vstd::arithmetic::div_mod::lemma_fundamental_div_mod_converse(
        (acc + k * dt) as int,
        dt as int,
        k as int,
        acc as int,
    );
}

/// With a frame time of one and a half steps (`dt == 2 * h`, frame `3 * h`),
/// a frame that starts with less than half a step runs exactly one step and
/// leaves half a step more than it started with (half a step, from a fresh
/// stepper); the frame after it runs two steps and brings the accumulator
/// back.
pub proof fn lemma_step_and_a_half_per_frame(acc: nat, h: nat)
    requires
        h > 0,
        acc < h,
    ensures
        steps_due(acc, 3 * h, 2 * h) == 1,
        time_left(acc, 3 * h, 2 * h) == acc + h,
        steps_due(acc + h, 3 * h, 2 * h) == 2,
        time_left(acc + h, 3 * h, 2 * h) == acc,
{
    vstd::arithmetic::div_mod::lemma_fundamental_div_mod_converse(
        (acc + 3 * h) as int,
        (2 * h) as int,
        1,
        (acc + h) as int,
    );
    vstd::arithmetic::div_mod::lemma_fundamental_div_mod_converse(
        (acc + h + 3 * h) as int,
        (2 * h) as int,
        2,
        acc as int,
    );
}

} // verus!
