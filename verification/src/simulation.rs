use vstd::prelude::*;
use crate::model::{StepError, WorldModel};
use crate::scheduler::{FixedStepScheduler, SchedulerModel};
use crate::world::WorldState;

verus! {

/// The mathematical state of a simulation.
pub struct SimulationModel {
    /// The track and its bodies.
    pub world: WorldModel,
    /// The clock that paces the steps.
    pub scheduler: SchedulerModel,
}

/// A world driven at a fixed step from a variable frame rate.
#[derive(Clone, Debug)]
pub struct Simulation {
    world: WorldState,
    scheduler: FixedStepScheduler,
}

impl View for Simulation {
    type V = SimulationModel;

    /// The views of the world and of the scheduler.
    closed spec fn view(&self) -> SimulationModel {
        SimulationModel { world: self.world@, scheduler: self.scheduler@ }
    }
}

impl Simulation {
    /// The world is sound and the scheduler's quantum is positive.
    pub open spec fn wf(&self) -> bool {
        self@.world.sound() && self@.scheduler.quantum > 0
    }

    /// A simulation of `world` at the pace of `scheduler`.
    pub fn new(world: WorldState, scheduler: FixedStepScheduler) -> (simulation: Simulation)
        requires
            world.wf(),
            scheduler.wf(),
        ensures
            simulation.wf(),
            simulation@ == (SimulationModel { world: world@, scheduler: scheduler@ }),
    {
        Simulation { world, scheduler }
    }

    /// The world, for reading positions, extents and the collision count.
    pub fn world(&self) -> (world: &WorldState)
        ensures
            world@ == self@.world,
            self.wf() ==> world.wf(),
    {
        &self.world
    }

    /// The scheduler, for reading the quantum, the cap and the backlog.
    pub fn scheduler(&self) -> (scheduler: &FixedStepScheduler)
        ensures
            scheduler@ == self@.scheduler,
            self.wf() ==> scheduler.wf(),
    {
        &self.scheduler
    }

    /// Accounts for `elapsed` time units since the last call and runs the
    /// steps that are due, one after another. Returns how many steps ran.
    /// Stepping stops at the first step that is refused; the steps before it
    /// stay in effect.
    pub fn advance(&mut self, elapsed: u64) -> (result: Result<u64, StepError>)
        requires
            old(self).wf(),
        ensures
            final(self).wf(),
            final(self)@.scheduler == old(self)@.scheduler.advanced(elapsed as nat),
            final(self)@.world == old(self)@.world.ran(
                old(self)@.scheduler.quantum as int,
                old(self)@.scheduler.due(elapsed as nat),
            ).world,
            match result {
                Ok(steps) => {
                    &&& steps == old(self)@.scheduler.due(elapsed as nat)
                    &&& old(self)@.world.ran(
                        old(self)@.scheduler.quantum as int,
                        old(self)@.scheduler.due(elapsed as nat),
                    ).fault is None
                    &&& final(self)@.world == old(self)@.world.stepped_times(
                        old(self)@.scheduler.quantum as int,
                        steps as nat,
                    )
                },
                Err(e) => old(self)@.world.ran(
                    old(self)@.scheduler.quantum as int,
                    old(self)@.scheduler.due(elapsed as nat),
                ).fault == Some(e),
            },
    {
        let ghost start = self@.world;
        let dt = self.scheduler.quantum();
        let due = self.scheduler.advance(elapsed);
        let mut done: u64 = 0;
        while done < due
            invariant
                self.wf(),
                done <= due,
                dt == old(self)@.scheduler.quantum,
                due == old(self)@.scheduler.due(elapsed as nat),
                start == old(self)@.world,
                self@.scheduler == old(self)@.scheduler.advanced(elapsed as nat),
                self@.world == start.ran(dt as int, done as nat).world,
                start.ran(dt as int, done as nat).fault is None,
                self@.world == start.stepped_times(dt as int, done as nat),
            decreases due - done,
        {
            let ghost earlier = start.ran(dt as int, done as nat);
            match self.world.step(dt) {
                Ok(_) => {
                    assert(start.ran(dt as int, (done + 1) as nat).world == earlier.world.stepped(
                        dt as int,
                    ));
                    done = done + 1;
                },
                Err(e) => {
                    proof {
                        let stopped = start.ran(dt as int, (done + 1) as nat);
                        assert(earlier.world.step_fault(dt as int) == Some(e));
                        assert(stopped.fault == Some(e) && stopped.world == earlier.world);
                        start.lemma_ran_stays_stopped(dt as int, (done + 1) as nat, due as nat);
                    }
                    return Err(e);
                },
            }
        }
        Ok(done)
    }
}

} // verus!
