use vstd::prelude::*;

verus! {

/// The mathematical state of a fixed-step scheduler.
pub struct SchedulerModel {
    /// Duration of one step, in time units.
    pub quantum: nat,
    /// Most steps that one call may hand out.
    pub max_steps: nat,
    /// Elapsed time not yet turned into steps.
    pub backlog: nat,
}

impl SchedulerModel {
    /// Whole steps contained in the backlog plus `elapsed`.
    pub open spec fn whole_steps(self, elapsed: nat) -> nat {
        (self.backlog + elapsed) / self.quantum
    }

    /// Steps to run now: the whole steps, capped.
    pub open spec fn due(self, elapsed: nat) -> nat {
        if self.whole_steps(elapsed) <= self.max_steps {
            self.whole_steps(elapsed)
        } else {
            self.max_steps
        }
    }

    /// Time left over once the due steps are taken.
    pub open spec fn carried(self, elapsed: nat) -> int {
        self.backlog + elapsed - self.due(elapsed) * self.quantum
    }

    /// The scheduler after the call: the leftover time is kept, as far as
    /// 64 bits can hold it.
    pub open spec fn advanced(self, elapsed: nat) -> SchedulerModel {
        SchedulerModel {
            backlog: if self.carried(elapsed) <= u64::MAX {
                self.carried(elapsed) as nat
            } else {
                u64::MAX as nat
            },
            ..self
        }
    }

    /// Simulated time never runs ahead of elapsed time, and falls behind by
    /// less than one quantum unless the cap was reached.
    pub proof fn law_no_drift(self, elapsed: nat)
        requires
            self.quantum > 0,
        ensures
            self.due(elapsed) * self.quantum + self.carried(elapsed) == self.backlog + elapsed,
            0 <= self.carried(elapsed),
            self.due(elapsed) < self.max_steps ==> self.carried(elapsed) < self.quantum,
            self.due(elapsed) <= self.max_steps,
    {
        let total = (self.backlog + elapsed) as int;
        let q = self.quantum as int;
        let whole = total / q;
        vstd::arithmetic::div_mod::lemma_fundamental_div_mod(total, q);
        vstd::arithmetic::div_mod::lemma_mod_pos_bound(total, q);
        vstd::arithmetic::div_mod::lemma_div_pos_is_pos(total, q);
        vstd::arithmetic::mul::lemma_mul_is_commutative(q, whole);
        let due = self.due(elapsed) as int;
        vstd::arithmetic::mul::lemma_mul_inequality(due, whole, q);
    }
}

/// The sum of the frame durations.
pub open spec fn total_elapsed(frames: Seq<nat>) -> nat
    decreases frames.len(),
{
    if frames.len() == 0 {
        0
    } else {
        total_elapsed(frames.drop_last()) + frames.last()
    }
}

impl SchedulerModel {
    /// The scheduler after one call for each frame in turn.
    pub open spec fn advanced_through(self, frames: Seq<nat>) -> SchedulerModel
        decreases frames.len(),
    {
        if frames.len() == 0 {
            self
        } else {
            self.advanced_through(frames.drop_last()).advanced(frames.last())
        }
    }

    /// The steps handed out over all the frames together.
    pub open spec fn steps_through(self, frames: Seq<nat>) -> nat
        decreases frames.len(),
    {
        if frames.len() == 0 {
            0
        } else {
            self.steps_through(frames.drop_last()) + self.advanced_through(
                frames.drop_last(),
            ).due(frames.last())
        }
    }

    /// At no frame did the leftover time exceed what 64 bits can hold.
    pub open spec fn never_saturated(self, frames: Seq<nat>) -> bool
        decreases frames.len(),
    {
        if frames.len() == 0 {
            true
        } else {
            self.never_saturated(frames.drop_last()) && self.advanced_through(
                frames.drop_last(),
            ).carried(frames.last()) <= u64::MAX
        }
    }

    /// Over any sequence of frames, the time simulated plus the time still
    /// owed is the time elapsed: the simulation does not drift.
    pub proof fn law_no_cumulative_drift(self, frames: Seq<nat>)
        requires
            self.quantum > 0,
            self.never_saturated(frames),
        ensures
            self.advanced_through(frames).quantum == self.quantum,
            self.advanced_through(frames).max_steps == self.max_steps,
            self.steps_through(frames) * self.quantum + self.advanced_through(frames).backlog
                == self.backlog + total_elapsed(frames),
        decreases frames.len(),
    {
        if frames.len() > 0 {
            let earlier = self.advanced_through(frames.drop_last());
            let before = self.steps_through(frames.drop_last());
            let now = earlier.due(frames.last());
            let q = self.quantum as int;
            self.law_no_cumulative_drift(frames.drop_last());
            earlier.law_no_drift(frames.last());
            assert(before * q + earlier.backlog == self.backlog + total_elapsed(
                frames.drop_last(),
            ));
            assert(now * q + earlier.carried(frames.last()) == earlier.backlog + frames.last());
            assert(self.advanced_through(frames).backlog == earlier.carried(frames.last()));
            vstd::arithmetic::mul::lemma_mul_is_distributive_add_other_way(
                q,
                before as int,
                now as int,
            );
            assert(self.steps_through(frames) == before + now);
            assert((before + now) * q == before * q + now * q);
        } else {
            assert(0 * (self.quantum as int) == 0);
        }
    }
}

/// Turns elapsed time into a number of fixed steps, carrying the remainder
/// over to the next call.
#[derive(Clone, Copy, Debug)]
pub struct FixedStepScheduler {
    quantum: u64,
    max_steps: u64,
    backlog: u64,
}

impl View for FixedStepScheduler {
    type V = SchedulerModel;

    /// Quantum, cap and backlog as natural numbers.
    closed spec fn view(&self) -> SchedulerModel {
        SchedulerModel {
            quantum: self.quantum as nat,
            max_steps: self.max_steps as nat,
            backlog: self.backlog as nat,
        }
    }
}

impl FixedStepScheduler {
    /// The quantum is positive.
    pub open spec fn wf(&self) -> bool {
        self@.quantum > 0
    }

    /// A scheduler with an empty backlog. A quantum of zero is refused.
    pub fn new(quantum: u64, max_steps: u64) -> (scheduler: Option<FixedStepScheduler>)
        ensures
            match scheduler {
                Some(s) => quantum > 0 && s.wf() && s@ == (SchedulerModel {
                    quantum: quantum as nat,
                    max_steps: max_steps as nat,
                    backlog: 0,
                }),
                None => quantum == 0,
            },
    {
        if quantum == 0 {
            None
        } else {
            Some(FixedStepScheduler { quantum, max_steps, backlog: 0 })
        }
    }

    /// The duration of one step.
    pub fn quantum(&self) -> (quantum: u64)
        ensures
            quantum == self@.quantum,
    {
        self.quantum
    }

    /// The most steps that one call hands out.
    pub fn max_steps(&self) -> (max_steps: u64)
        ensures
            max_steps == self@.max_steps,
    {
        self.max_steps
    }

    /// The elapsed time not yet turned into steps.
    pub fn backlog(&self) -> (backlog: u64)
        ensures
            backlog == self@.backlog,
    {
        self.backlog
    }

    /// Accounts for `elapsed` time units and returns how many steps to run
    /// now. Steps beyond the cap stay in the backlog for later calls.
    pub fn advance(&mut self, elapsed: u64) -> (steps: u64)
        requires
            old(self).wf(),
        ensures
            final(self).wf(),
            steps == old(self)@.due(elapsed as nat),
            final(self)@ == old(self)@.advanced(elapsed as nat),
    {
        let total: u128 = self.backlog as u128 + elapsed as u128;
        let whole: u128 = total / (self.quantum as u128);
        let steps: u64 = if whole <= self.max_steps as u128 {
            whole as u64
        } else {
            self.max_steps
        };
        proof {
            self@.law_no_drift(elapsed as nat);
        }
        let used: u128 = (steps as u128) * (self.quantum as u128);
        let rest: u128 = total - used;
        self.backlog = if rest <= u64::MAX as u128 {
            rest as u64
        } else {
            u64::MAX
        };
        steps
    }
}

} // verus!
