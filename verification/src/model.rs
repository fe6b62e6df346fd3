use vstd::prelude::*;
use crate::body::{BodyState, WallSide};
use crate::elastic::{rebound, ENERGY_LIMIT};
use crate::energy::{all_valid, total_energy};

verus! {

/// The mathematical state of the whole track.
pub struct WorldModel {
    /// Position of the wall.
    pub wall: int,
    /// The end of the track that the wall closes.
    pub side: WallSide,
    /// The bodies, in the fixed order in which pairs are enumerated.
    pub bodies: Seq<BodyState>,
    /// Number of collisions resolved so far.
    pub collisions: nat,
}

impl WorldModel {
    /// Every body coasts for `dt` time units.
    pub open spec fn integrated(self, dt: int) -> WorldModel {
        WorldModel {
            bodies: Seq::new(self.bodies.len(), |i: int| self.bodies[i].moved(dt)),
            ..self
        }
    }

    /// The pair `(i, j)` after detection and, on overlap, resolution: both
    /// velocities follow the elastic law and the counter advances by one.
    pub open spec fn with_pair_resolved(self, i: int, j: int) -> WorldModel {
        let a = self.bodies[i];
        let b = self.bodies[j];
        if a.touches(b) {
            WorldModel {
                bodies: self.bodies.update(
                    i,
                    a.with_velocity(rebound(a.mass, a.velocity, b.mass, b.velocity)),
                ).update(j, b.with_velocity(rebound(b.mass, b.velocity, a.mass, a.velocity))),
                collisions: self.collisions + 1,
                ..self
            }
        } else {
            self
        }
    }

    /// The pairs `(i, i + 1)`, ..., `(i, j - 1)` resolved one after another,
    /// each seeing the velocities that the earlier ones left.
    pub open spec fn with_row_resolved(self, i: int, j: int) -> WorldModel
        decreases j - i,
    {
        if j <= i + 1 {
            self
        } else {
            self.with_row_resolved(i, j - 1).with_pair_resolved(i, j - 1)
        }
    }

    /// The rows of all first indices below `i` resolved in order.
    pub open spec fn with_rows_resolved(self, i: int) -> WorldModel
        decreases i,
    {
        if i <= 0 {
            self
        } else {
            self.with_rows_resolved(i - 1).with_row_resolved(i - 1, self.bodies.len() as int)
        }
    }

    /// Every unordered pair of bodies visited once, in index order.
    pub open spec fn bodies_resolved(self) -> WorldModel {
        self.with_rows_resolved(self.bodies.len() as int)
    }

    /// Body `i` after detection against the wall and, on contact, reflection:
    /// the velocity is negated, the leading edge is put on the wall and the
    /// counter advances by one.
    pub open spec fn with_wall_resolved(self, i: int) -> WorldModel {
        let b = self.bodies[i];
        if b.at_wall(self.wall, self.side) {
            WorldModel {
                bodies: self.bodies.update(i, b.bounced(self.wall, self.side)),
                collisions: self.collisions + 1,
                ..self
            }
        } else {
            self
        }
    }

    /// The bodies below index `k` tested against the wall in order.
    pub open spec fn with_walls_resolved(self, k: int) -> WorldModel
        decreases k,
    {
        if k <= 0 {
            self
        } else {
            self.with_walls_resolved(k - 1).with_wall_resolved(k - 1)
        }
    }

    /// Every body tested against the wall once, in index order.
    pub open spec fn walls_resolved(self) -> WorldModel {
        self.with_walls_resolved(self.bodies.len() as int)
    }

    /// One fixed step: integrate, then resolve body pairs, then the wall.
    pub open spec fn stepped(self, dt: int) -> WorldModel {
        self.integrated(dt).bodies_resolved().walls_resolved()
    }

    /// `n` fixed steps of the same duration.
    pub open spec fn stepped_times(self, dt: int, n: nat) -> WorldModel
        decreases n,
    {
        if n == 0 {
            self
        } else {
            self.stepped_times(dt, (n - 1) as nat).stepped(dt)
        }
    }
}

/// Number of unordered pairs among `n` bodies.
pub open spec fn pair_count(n: nat) -> nat
    decreases n,
{
    if n == 0 {
        0
    } else {
        pair_count((n - 1) as nat) + (n - 1) as nat
    }
}

/// The pair count in closed form.
pub proof fn lemma_pair_count(n: nat)
    ensures
        2 * pair_count(n) == n * (n - 1),
    decreases n,
{
    let k = n as int;
    if n > 0 {
        let m = (n - 1) as nat;
        lemma_pair_count(m);
        assert(2 * pair_count(m) == m * (m - 1));
        assert(k * (k - 1) == (k - 1) * (k - 2) + 2 * (k - 1)) by (nonlinear_arith);
    } else {
        assert(k * (k - 1) == 0) by (nonlinear_arith)
            requires
                k == 0,
        ;
    }
}

/// Why a fixed step cannot be taken within the machine's number ranges.
#[derive(Clone, Copy, Debug, PartialEq, Eq, Structural)]
pub enum StepError {
    /// Coasting would carry this body, the first such, outside the
    /// positions that 64 bits can hold.
    PositionOutOfRange { body: usize },
    /// The collision counter has no room left for the events that one pass
    /// can produce.
    CounterExhausted,
}

/// Where a run of several steps ended.
pub struct RunModel {
    /// The state after the last completed step.
    pub world: WorldModel,
    /// Why the next step was refused, if one was.
    pub fault: Option<StepError>,
}

impl WorldModel {
    /// The conditions under which every step stays within the machine's
    /// number ranges: valid bodies, each able to rest against the wall, and
    /// a total energy within the limit.
    pub open spec fn sound(self) -> bool {
        &&& all_valid(self.bodies)
        &&& forall|i: int|
            0 <= i < self.bodies.len() ==> i64::MIN <= (#[trigger] self.bodies[i]).rest_position(
                self.wall,
                self.side,
            ) <= i64::MAX
        &&& total_energy(self.bodies) <= ENERGY_LIMIT
    }

    /// Coasting for `dt` would carry body `i` outside the positions that 64
    /// bits can hold.
    pub open spec fn strays(self, dt: int, i: int) -> bool {
        let target = self.bodies[i].moved(dt).position;
        target < i64::MIN || target > i64::MAX
    }

    /// The first body below index `k` that strays, if any.
    pub open spec fn stray_below(self, dt: int, k: int) -> Option<int>
        decreases k,
    {
        if k <= 0 {
            None
        } else {
            match self.stray_below(dt, k - 1) {
                Some(i) => Some(i),
                None => if self.strays(dt, k - 1) {
                    Some(k - 1)
                } else {
                    None
                },
            }
        }
    }

    /// The first body that strays, if any.
    pub open spec fn first_stray(self, dt: int) -> Option<int> {
        self.stray_below(dt, self.bodies.len() as int)
    }

    /// The most events that one step can count: every pair and every body.
    pub open spec fn step_capacity(self) -> nat {
        pair_count(self.bodies.len()) + self.bodies.len()
    }

    /// The reason, if any, for which a step from this state is refused.
    pub open spec fn step_fault(self, dt: int) -> Option<StepError> {
        match self.first_stray(dt) {
            Some(i) => Some(StepError::PositionOutOfRange { body: i as usize }),
            None => if self.collisions + self.step_capacity() > u64::MAX {
                Some(StepError::CounterExhausted)
            } else {
                None
            },
        }
    }

    /// The state after up to `n` steps of duration `dt`: stepping stops at
    /// the first step that is refused.
    pub open spec fn ran(self, dt: int, n: nat) -> RunModel
        decreases n,
    {
        if n == 0 {
            RunModel { world: self, fault: None }
        } else {
            let earlier = self.ran(dt, (n - 1) as nat);
            if earlier.fault is Some {
                earlier
            } else {
                match earlier.world.step_fault(dt) {
                    Some(e) => RunModel { fault: Some(e), ..earlier },
                    None => RunModel { world: earlier.world.stepped(dt), fault: None },
                }
            }
        }
    }

    /// A run that was refused stays where it stopped, however many more
    /// steps are asked for.
    pub proof fn lemma_ran_stays_stopped(self, dt: int, n: nat, more: nat)
        requires
            n <= more,
            self.ran(dt, n).fault is Some,
        ensures
            self.ran(dt, more) == self.ran(dt, n),
        decreases more - n,
    {
        if n < more {
            self.lemma_ran_stays_stopped(dt, n, (more - 1) as nat);
        }
    }

    /// Once a straying body is found, looking further does not change it.
    pub proof fn lemma_stray_below_stable(self, dt: int, k: int, further: int)
        requires
            k <= further,
            self.stray_below(dt, k) is Some,
        ensures
            self.stray_below(dt, further) == self.stray_below(dt, k),
        decreases further - k,
    {
        if k < further {
            self.lemma_stray_below_stable(dt, k, further - 1);
        }
    }

    /// `stray_below` finds the least straying index below `k`.
    pub proof fn lemma_stray_below(self, dt: int, k: int)
        ensures
            match self.stray_below(dt, k) {
                Some(i) => 0 <= i < k && self.strays(dt, i) && forall|j: int|
                    0 <= j < i ==> !self.strays(dt, j),
                None => forall|j: int| 0 <= j < k ==> !self.strays(dt, j),
            },
        decreases k,
    {
        if k > 0 {
            self.lemma_stray_below(dt, k - 1);
        }
    }
}

} // verus!
