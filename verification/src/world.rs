use vstd::prelude::*;
use crate::body::{states_of, Body, BodyState, WallSide};
use crate::conservation::law_reflection;
use crate::detection::{
    body_contacts, contacts_below, indices, pair_indices, row_contacts, wall_contacts,
    wall_contacts_below,
};
use crate::elastic::{
    elastic_velocities, lemma_energy_nonnegative, lemma_speed_within_limit, ENERGY_LIMIT,
};
use crate::energy::{
    lemma_energy_share, lemma_energy_share_of_pair, lemma_total_energy_prefix,
    lemma_total_energy_same, lemma_total_energy_update, total_energy,
};
use crate::laws::{law_step, lemma_rows_resolution, lemma_walls_resolution};
use crate::model::{lemma_pair_count, pair_count, StepError, WorldModel};

verus! {

/// Why a world cannot be built from the given bodies.
#[derive(Clone, Copy, Debug, PartialEq, Eq, Structural)]
pub enum ConstructionError {
    /// The mass of this body is zero or negative.
    NonPositiveMass { body: usize },
    /// The half-extent of this body is zero or negative.
    NonPositiveHalfExtent { body: usize },
    /// This body is so wide that, resting against the wall, its centre would
    /// lie outside the positions that 64 bits can hold.
    RestOutOfRange { body: usize },
    /// The doubled kinetic energy of the bodies up to and including this one
    /// exceeds the energy limit.
    EnergyOutOfRange { body: usize },
}

/// What is wrong with body `i` of a proposed world, if anything. The checks
/// are made in the order mass, half-extent, rest position, energy.
pub open spec fn body_fault(wall: int, side: WallSide, bodies: Seq<BodyState>, i: int) -> Option<
    ConstructionError,
> {
    let b = bodies[i];
    let rest = b.rest_position(wall, side);
    if b.mass <= 0 {
        Some(ConstructionError::NonPositiveMass { body: i as usize })
    } else if b.half_extent <= 0 {
        Some(ConstructionError::NonPositiveHalfExtent { body: i as usize })
    } else if rest < i64::MIN || rest > i64::MAX {
        Some(ConstructionError::RestOutOfRange { body: i as usize })
    } else if total_energy(bodies.take(i + 1)) > ENERGY_LIMIT {
        Some(ConstructionError::EnergyOutOfRange { body: i as usize })
    } else {
        None
    }
}

/// The first fault among the bodies below index `k`, if any.
pub open spec fn fault_below(wall: int, side: WallSide, bodies: Seq<BodyState>, k: int) -> Option<
    ConstructionError,
>
    decreases k,
{
    if k <= 0 {
        None
    } else {
        match fault_below(wall, side, bodies, k - 1) {
            Some(e) => Some(e),
            None => body_fault(wall, side, bodies, k - 1),
        }
    }
}

/// The first fault of a proposed world, if any.
pub open spec fn first_fault(wall: int, side: WallSide, bodies: Seq<BodyState>) -> Option<
    ConstructionError,
> {
    fault_below(wall, side, bodies, bodies.len() as int)
}

/// `fault_below` reports the fault of the least faulty index below `k`.
pub proof fn lemma_fault_below(wall: int, side: WallSide, bodies: Seq<BodyState>, k: int)
    ensures
        match fault_below(wall, side, bodies, k) {
            Some(e) => exists|i: int|
                {
                    &&& 0 <= i < k
                    &&& #[trigger] body_fault(wall, side, bodies, i) == Some(e)
                    &&& forall|j: int| 0 <= j < i ==> body_fault(wall, side, bodies, j) is None
                },
            None => forall|j: int| 0 <= j < k ==> body_fault(wall, side, bodies, j) is None,
        },
    decreases k,
{
    if k > 0 {
        lemma_fault_below(wall, side, bodies, k - 1);
        if fault_below(wall, side, bodies, k - 1) is None {
            if let Some(e) = body_fault(wall, side, bodies, k - 1) {
                assert(body_fault(wall, side, bodies, k - 1) == Some(e));
            }
        }
    }
}

/// Once a fault is found, looking further does not change it.
proof fn lemma_fault_below_stable(
    wall: int,
    side: WallSide,
    bodies: Seq<BodyState>,
    k: int,
    further: int,
)
    requires
        k <= further,
        fault_below(wall, side, bodies, k) is Some,
    ensures
        fault_below(wall, side, bodies, further) == fault_below(wall, side, bodies, k),
    decreases further - k,
{
    if k < further {
        lemma_fault_below_stable(wall, side, bodies, k, further - 1);
    }
}

/// The track: a wall, the bodies in a fixed order, and the running count of
/// collisions.
#[derive(Clone, Debug)]
pub struct WorldState {
    wall_position: i64,
    wall_side: WallSide,
    bodies: Vec<Body>,
    collision_count: u64,
}

impl View for WorldState {
    type V = WorldModel;

    /// Wall, bodies and count as mathematical values.
    closed spec fn view(&self) -> WorldModel {
        WorldModel {
            wall: self.wall_position as int,
            side: self.wall_side,
            bodies: states_of(self.bodies@),
            collisions: self.collision_count as nat,
        }
    }
}

impl WorldState {
    /// The state is within the conditions that keep every step inside the
    /// machine's number ranges.
    pub open spec fn wf(&self) -> bool {
        self@.sound()
    }

    /// A world whose wall closes the low end of the track, with no collision
    /// counted yet. The bodies are checked in order and the first fault is
    /// reported.
    pub fn new(wall_position: i64, bodies: Vec<Body>) -> (result: Result<
        WorldState,
        ConstructionError,
    >)
        ensures
            match result {
                Ok(world) => {
                    &&& first_fault(wall_position as int, WallSide::Low, states_of(bodies@)) is None
                    &&& world.wf()
                    &&& world@ == (WorldModel {
                        wall: wall_position as int,
                        side: WallSide::Low,
                        bodies: states_of(bodies@),
                        collisions: 0,
                    })
                },
                Err(e) => first_fault(wall_position as int, WallSide::Low, states_of(bodies@))
                    == Some(e),
            },
    {
        WorldState::with_collision_count(wall_position, WallSide::Low, bodies, 0)
    }

    /// A world whose wall closes the given end of the track, with no
    /// collision counted yet.
    pub fn with_wall_side(wall_position: i64, wall_side: WallSide, bodies: Vec<Body>) -> (result:
        Result<WorldState, ConstructionError>)
        ensures
            match result {
                Ok(world) => {
                    &&& first_fault(wall_position as int, wall_side, states_of(bodies@)) is None
                    &&& world.wf()
                    &&& world@ == (WorldModel {
                        wall: wall_position as int,
                        side: wall_side,
                        bodies: states_of(bodies@),
                        collisions: 0,
                    })
                },
                Err(e) => first_fault(wall_position as int, wall_side, states_of(bodies@)) == Some(
                    e,
                ),
            },
    {
        WorldState::with_collision_count(wall_position, wall_side, bodies, 0)
    }

    /// A world that continues a count begun elsewhere.
    pub fn with_collision_count(
        wall_position: i64,
        wall_side: WallSide,
        bodies: Vec<Body>,
        collision_count: u64,
    ) -> (result: Result<WorldState, ConstructionError>)
        ensures
            match result {
                Ok(world) => {
                    &&& first_fault(wall_position as int, wall_side, states_of(bodies@)) is None
                    &&& world.wf()
                    &&& world@ == (WorldModel {
                        wall: wall_position as int,
                        side: wall_side,
                        bodies: states_of(bodies@),
                        collisions: collision_count as nat,
                    })
                },
                Err(e) => first_fault(wall_position as int, wall_side, states_of(bodies@)) == Some(
                    e,
                ),
            },
    {
        let ghost states = states_of(bodies@);
        let ghost wall = wall_position as int;
        let n = bodies.len();
        let mut spent: u128 = 0;
        let mut i: usize = 0;
        while i < n
            invariant
                n == bodies.len(),
                i <= n,
                states == states_of(bodies@),
                wall == wall_position as int,
                spent == total_energy(states.take(i as int)),
                spent <= ENERGY_LIMIT,
                fault_below(wall, wall_side, states, i as int) is None,
            decreases n - i,
        {
            let b = bodies[i];
            let ghost fault = body_fault(wall, wall_side, states, i as int);
            assert(states[i as int] == b@);
            proof {
                lemma_total_energy_prefix(states, i as int);
                if fault is Some {
                    assert(fault_below(wall, wall_side, states, i + 1) == fault);
                    lemma_fault_below_stable(wall, wall_side, states, i + 1, n as int);
                }
            }
            if b.mass <= 0 {
                return Err(ConstructionError::NonPositiveMass { body: i });
            }
            if b.half_extent <= 0 {
                return Err(ConstructionError::NonPositiveHalfExtent { body: i });
            }
            let rest: i128 = match wall_side {
                WallSide::Low => wall_position as i128 + b.half_extent as i128,
                WallSide::High => wall_position as i128 - b.half_extent as i128,
            };
            if rest < i64::MIN as i128 || rest > i64::MAX as i128 {
                return Err(ConstructionError::RestOutOfRange { body: i });
            }
            let speed: u128 = if b.velocity >= 0 {
                b.velocity as u128
            } else {
                (-(b.velocity as i128)) as u128
            };
            assert(speed * speed <= 0x4000_0000_0000_0000_0000_0000_0000_0000) by (nonlinear_arith)
                requires
                    speed <= 0x8000_0000_0000_0000,
            ;
            let square: u128 = speed * speed;
            assert(square == b.velocity * b.velocity) by (nonlinear_arith)
                requires
                    square == speed * speed,
                    speed == b.velocity || speed == -b.velocity,
            ;
            let room: u128 = ENERGY_LIMIT - spent;
            proof {
                lemma_energy_nonnegative(b.mass as int, b.velocity as int);
                lemma_product_within(b.mass as int, square as int, room as int);
            }
            if square > room / (b.mass as u128) {
                return Err(ConstructionError::EnergyOutOfRange { body: i });
            }
            spent = spent + (b.mass as u128) * square;
            assert(fault is None);
            i += 1;
        }
        let world = WorldState { wall_position, wall_side, bodies, collision_count };
        proof {
            assert(states.take(n as int) =~= states);
            lemma_fault_below(wall, wall_side, states, n as int);
            assert forall|k: int| 0 <= k < states.len() implies (#[trigger] states[k]).valid()
                && i64::MIN <= states[k].rest_position(wall, wall_side) <= i64::MAX by {
                assert(body_fault(wall, wall_side, states, k) is None);
            }
        }
        Ok(world)
    }

    /// The position of the wall.
    pub fn wall_position(&self) -> (wall: i64)
        ensures
            wall == self@.wall,
    {
        self.wall_position
    }

    /// The end of the track that the wall closes.
    pub fn wall_side(&self) -> (side: WallSide)
        ensures
            side == self@.side,
    {
        self.wall_side
    }

    /// The number of bodies.
    pub fn body_count(&self) -> (count: usize)
        ensures
            count == self@.bodies.len(),
    {
        self.bodies.len()
    }

    /// The body at `index`, if there is one.
    pub fn body(&self, index: usize) -> (body: Option<Body>)
        ensures
            match body {
                Some(b) => index < self@.bodies.len() && b@ == self@.bodies[index as int],
                None => index >= self@.bodies.len(),
            },
    {
        if index < self.bodies.len() {
            Some(self.bodies[index])
        } else {
            None
        }
    }

    /// The number of collisions resolved since the world was built.
    pub fn collision_count(&self) -> (count: u64)
        ensures
            count == self@.collisions,
    {
        self.collision_count
    }

    /// The body-to-body detector: every unordered pair of bodies whose
    /// footprints intersect, touching included, once, as `(i, j)` with
    /// `i < j`, in index order.
    pub fn overlapping_pairs(&self) -> (pairs: Vec<(usize, usize)>)
        ensures
            pair_indices(pairs@) == body_contacts(self@.bodies),
    {
        let n = self.bodies.len();
        let mut pairs: Vec<(usize, usize)> = Vec::new();
        let mut i: usize = 0;
        while i < n
            invariant
                n == self.bodies.len(),
                i <= n,
                pair_indices(pairs@) == contacts_below(self@.bodies, i as int),
            decreases n - i,
        {
            let ghost earlier = pair_indices(pairs@);
            let mut j: usize = i + 1;
            while j < n
                invariant
                    n == self.bodies.len(),
                    i < n,
                    i + 1 <= j <= n,
                    earlier == contacts_below(self@.bodies, i as int),
                    pair_indices(pairs@) == earlier + row_contacts(
                        self@.bodies,
                        i as int,
                        j as int,
                    ),
                decreases n - j,
            {
                let ghost found = pair_indices(pairs@);
                if self.bodies[i].touches(&self.bodies[j]) {
                    pairs.push((i, j));
                    assert(pair_indices(pairs@) =~= found.push((i as int, j as int)));
                }
                assert(pair_indices(pairs@) =~= earlier + row_contacts(
                    self@.bodies,
                    i as int,
                    j + 1,
                ));
                j += 1;
            }
            i += 1;
        }
        pairs
    }

    /// The wall detector: every body whose leading edge has reached or
    /// crossed the wall, once, in index order.
    pub fn bodies_at_wall(&self) -> (hits: Vec<usize>)
        ensures
            indices(hits@) == wall_contacts(self@.bodies, self@.wall, self@.side),
    {
        let n = self.bodies.len();
        let mut hits: Vec<usize> = Vec::new();
        let mut i: usize = 0;
        while i < n
            invariant
                n == self.bodies.len(),
                i <= n,
                indices(hits@) == wall_contacts_below(
                    self@.bodies,
                    self@.wall,
                    self@.side,
                    i as int,
                ),
            decreases n - i,
        {
            let ghost found = indices(hits@);
            if self.bodies[i].at_wall(self.wall_position, self.wall_side) {
                hits.push(i);
                assert(indices(hits@) =~= found.push(i as int));
            }
            i += 1;
        }
        hits
    }

    /// The bodies after coasting for `dt`, or the first body that would
    /// leave the positions that 64 bits can hold.
    fn coasted(&self, dt: u64) -> (result: Result<Vec<Body>, StepError>)
        ensures
            match result {
                Ok(moved) => self@.first_stray(dt as int) is None && states_of(moved@)
                    == self@.integrated(dt as int).bodies,
                Err(e) => self@.first_stray(dt as int) matches Some(i) && e
                    == (StepError::PositionOutOfRange { body: i as usize }),
            },
    {
        let n = self.bodies.len();
        let mut moved: Vec<Body> = Vec::new();
        let mut i: usize = 0;
        while i < n
            invariant
                n == self.bodies.len(),
                i <= n,
                moved.len() == i,
                self@.stray_below(dt as int, i as int) is None,
                forall|k: int|
                    0 <= k < i ==> (#[trigger] moved[k])@ == self.bodies[k]@.moved(dt as int),
            decreases n - i,
        {
            let b = self.bodies[i];
            proof {
                lemma_shift_range(b.velocity as int, dt as int);
            }
            let shift: i128 = (b.velocity as i128) * (dt as i128);
            let target: i128 = b.position as i128 + shift;
            assert(self@.bodies[i as int] == b@);
            assert(target == b@.moved(dt as int).position);
            if target < i64::MIN as i128 || target > i64::MAX as i128 {
                proof {
                    assert(self@.strays(dt as int, i as int));
                    assert(self@.stray_below(dt as int, i + 1) == Some(i as int));
                    self@.lemma_stray_below_stable(dt as int, i + 1, n as int);
                }
                return Err(StepError::PositionOutOfRange { body: i });
            }
            moved.push(
                Body {
                    mass: b.mass,
                    position: target as i64,
                    half_extent: b.half_extent,
                    velocity: b.velocity,
                },
            );
            i += 1;
        }
        assert(states_of(moved@) =~= self@.integrated(dt as int).bodies);
        Ok(moved)
    }

    /// Replaces the bodies by their coasted successors.
    fn commit(&mut self, moved: Vec<Body>, Ghost(dt): Ghost<int>)
        requires
            old(self).wf(),
            states_of(moved@) == old(self)@.integrated(dt).bodies,
        ensures
            final(self).wf(),
            final(self)@ == old(self)@.integrated(dt),
            total_energy(final(self)@.bodies) == total_energy(old(self)@.bodies),
    {
        proof {
            let before = self@.bodies;
            let after = states_of(moved@);
            assert forall|k: int| 0 <= k < after.len() implies (#[trigger] after[k]).valid()
                && i64::MIN <= after[k].rest_position(self@.wall, self@.side) <= i64::MAX by {
                assert(before[k].valid());
            }
            assert forall|k: int| 0 <= k < after.len() implies (#[trigger] after[k]).mass
                == before[k].mass && after[k].velocity == before[k].velocity by {}
            lemma_total_energy_same(after, before);
        }
        self.bodies = moved;
    }

    /// The integrator: every body's position advances by its velocity times
    /// `dt`. Nothing else changes. When some body would leave the positions
    /// that 64 bits can hold, no body moves and the first such body is
    /// reported.
    pub fn integrate(&mut self, dt: u64) -> (result: Result<(), StepError>)
        requires
            old(self).wf(),
        ensures
            final(self).wf(),
            match result {
                Ok(_) => old(self)@.first_stray(dt as int) is None && final(self)@ == old(self)@.integrated(dt as int),
                Err(e) => old(self)@.first_stray(dt as int) matches Some(i) && e
                    == (StepError::PositionOutOfRange { body: i as usize }) && final(self)@ == old(self)@,
            },
    {
        match self.coasted(dt) {
            Ok(moved) => {
                self.commit(moved, Ghost(dt as int));
                Ok(())
            },
            Err(e) => Err(e),
        }
    }

    /// The counter can take `events` more collisions.
    fn has_room(&self, events: u128) -> (ok: bool)
        ensures
            ok == (self@.collisions + events <= u64::MAX),
    {
        events <= (u64::MAX - self.collision_count) as u128
    }

    /// Detects and resolves the pair `(i, j)`.
    fn resolve_pair(&mut self, i: usize, j: usize) -> (hit: bool)
        requires
            old(self).wf(),
            i < j < old(self)@.bodies.len(),
            old(self)@.collisions < u64::MAX,
        ensures
            final(self).wf(),
            final(self)@ == old(self)@.with_pair_resolved(i as int, j as int),
            final(self)@.bodies.len() == old(self)@.bodies.len(),
            final(self)@.collisions == old(self)@.collisions + if hit {
                1nat
            } else {
                0nat
            },
            total_energy(final(self)@.bodies) <= total_energy(old(self)@.bodies),
    {
        let a = self.bodies[i];
        let b = self.bodies[j];
        let ghost before = self@.bodies;
        assert(before[i as int] == a@ && before[j as int] == b@);
        if a.touches(&b) {
            proof {
                assert(before[i as int].valid() && before[j as int].valid());
                lemma_energy_share_of_pair(before, i as int, j as int);
            }
            let (va, vb) = elastic_velocities(a.mass, a.velocity, b.mass, b.velocity);
            let a_after = Body {
                mass: a.mass,
                position: a.position,
                half_extent: a.half_extent,
                velocity: va,
            };
            let b_after = Body {
                mass: b.mass,
                position: b.position,
                half_extent: b.half_extent,
                velocity: vb,
            };
            self.bodies.set(i, a_after);
            self.bodies.set(j, b_after);
            self.collision_count = self.collision_count + 1;
            proof {
                let middle = before.update(i as int, a_after@);
                let after = middle.update(j as int, b_after@);
                assert(self@.bodies =~= after);
                lemma_total_energy_update(before, i as int, a_after@);
                lemma_total_energy_update(middle, j as int, b_after@);
                assert forall|k: int| 0 <= k < after.len() implies (#[trigger] after[k]).valid()
                    && i64::MIN <= after[k].rest_position(self@.wall, self@.side) <= i64::MAX by {
                    assert(before[k].valid());
                }
            }
            true
        } else {
            false
        }
    }

    /// Visits every unordered pair once, in index order.
    fn resolve_pairs(&mut self) -> (events: u64)
        requires
            old(self).wf(),
            old(self)@.collisions + pair_count(old(self)@.bodies.len()) <= u64::MAX,
        ensures
            final(self).wf(),
            final(self)@ == old(self)@.bodies_resolved(),
            final(self)@.bodies.len() == old(self)@.bodies.len(),
            final(self)@.collisions == old(self)@.collisions + events,
            events <= pair_count(old(self)@.bodies.len()),
            events == body_contacts(old(self)@.bodies).len(),
            total_energy(final(self)@.bodies) <= total_energy(old(self)@.bodies),
    {
        let ghost start = self@;
        let n = self.bodies.len();
        let mut events: u64 = 0;
        let mut i: usize = 0;
        while i < n
            invariant
                self.wf(),
                n == self@.bodies.len(),
                n == start.bodies.len(),
                i <= n,
                self@ == start.with_rows_resolved(i as int),
                self@.collisions == start.collisions + events,
                total_energy(self@.bodies) <= total_energy(start.bodies),
                events + pair_count((n - i) as nat) <= pair_count(n as nat),
                start.collisions + pair_count(n as nat) <= u64::MAX,
            decreases n - i,
        {
            let ghost row_start = self@;
            let mut j: usize = i + 1;
            while j < n
                invariant
                    self.wf(),
                    n == self@.bodies.len(),
                    n == start.bodies.len(),
                    i < n,
                    i + 1 <= j <= n,
                    self@ == row_start.with_row_resolved(i as int, j as int),
                    self@.collisions == start.collisions + events,
                    total_energy(self@.bodies) <= total_energy(start.bodies),
                    events + (n - j) + pair_count((n - i - 1) as nat) <= pair_count(n as nat),
                    start.collisions + pair_count(n as nat) <= u64::MAX,
                decreases n - j,
            {
                let hit = self.resolve_pair(i, j);
                if hit {
                    events = events + 1;
                }
                j += 1;
            }
            i += 1;
        }
        proof {
            lemma_rows_resolution(start, n as int);
        }
        events
    }

    /// The body-to-body pass: every unordered pair is tested once for
    /// overlap, in index order, and each overlapping pair at once takes the
    /// velocities of the elastic law, so that later pairs see them. Positions
    /// do not change. Each resolved pair counts as one collision. When the
    /// counter has no room for a collision of every pair, nothing changes.
    pub fn resolve_body_collisions(&mut self) -> (result: Result<u64, StepError>)
        requires
            old(self).wf(),
        ensures
            final(self).wf(),
            match result {
                Ok(events) => {
                    &&& old(self)@.collisions + pair_count(old(self)@.bodies.len()) <= u64::MAX
                    &&& final(self)@ == old(self)@.bodies_resolved()
                    &&& final(self)@.collisions == old(self)@.collisions + events
                    &&& events == body_contacts(old(self)@.bodies).len()
                    &&& total_energy(final(self)@.bodies) <= total_energy(old(self)@.bodies)
                },
                Err(e) => {
                    &&& e == StepError::CounterExhausted
                    &&& old(self)@.collisions + pair_count(old(self)@.bodies.len()) > u64::MAX
                    &&& final(self)@ == old(self)@
                },
            },
    {
        if self.has_room(pair_capacity(self.bodies.len())) {
            Ok(self.resolve_pairs())
        } else {
            Err(StepError::CounterExhausted)
        }
    }

    /// Detects and resolves body `i` against the wall.
    fn resolve_wall(&mut self, i: usize) -> (hit: bool)
        requires
            old(self).wf(),
            i < old(self)@.bodies.len(),
            old(self)@.collisions < u64::MAX,
        ensures
            final(self).wf(),
            final(self)@ == old(self)@.with_wall_resolved(i as int),
            final(self)@.bodies.len() == old(self)@.bodies.len(),
            final(self)@.collisions == old(self)@.collisions + if hit {
                1nat
            } else {
                0nat
            },
            total_energy(final(self)@.bodies) == total_energy(old(self)@.bodies),
    {
        let b = self.bodies[i];
        let ghost before = self@.bodies;
        assert(before[i as int] == b@);
        if b.at_wall(self.wall_position, self.wall_side) {
            proof {
                assert(before[i as int].valid());
                lemma_energy_share(before, i as int);
                lemma_speed_within_limit(b.mass as int, b.velocity as int);
            }
            let rest: i64 = match self.wall_side {
                WallSide::Low => self.wall_position + b.half_extent,
                WallSide::High => self.wall_position - b.half_extent,
            };
            let b_after = Body {
                mass: b.mass,
                position: rest,
                half_extent: b.half_extent,
                velocity: -b.velocity,
            };
            self.bodies.set(i, b_after);
            self.collision_count = self.collision_count + 1;
            proof {
                let after = before.update(i as int, b_after@);
                assert(b_after@ == b@.bounced(self@.wall, self@.side));
                assert(self@.bodies =~= after);
                law_reflection(b@, self@.wall, self@.side);
                lemma_total_energy_update(before, i as int, b_after@);
                assert forall|k: int| 0 <= k < after.len() implies (#[trigger] after[k]).valid()
                    && i64::MIN <= after[k].rest_position(self@.wall, self@.side) <= i64::MAX by {
                    assert(before[k].valid());
                }
            }
            true
        } else {
            false
        }
    }

    /// Tests every body against the wall once, in index order.
    fn resolve_walls(&mut self) -> (events: u64)
        requires
            old(self).wf(),
            old(self)@.collisions + old(self)@.bodies.len() <= u64::MAX,
        ensures
            final(self).wf(),
            final(self)@ == old(self)@.walls_resolved(),
            final(self)@.bodies.len() == old(self)@.bodies.len(),
            final(self)@.collisions == old(self)@.collisions + events,
            events <= old(self)@.bodies.len(),
            events == wall_contacts(
                old(self)@.bodies,
                old(self)@.wall,
                old(self)@.side,
            ).len(),
            total_energy(final(self)@.bodies) == total_energy(old(self)@.bodies),
            forall|k: int|
                0 <= k < final(self)@.bodies.len() ==> !(#[trigger] final(self)@.bodies[k]).past_wall(
                    final(self)@.wall,
                    final(self)@.side,
                ),
    {
        let ghost start = self@;
        let n = self.bodies.len();
        let mut events: u64 = 0;
        let mut i: usize = 0;
        while i < n
            invariant
                self.wf(),
                n == self@.bodies.len(),
                n == start.bodies.len(),
                i <= n,
                self@ == start.with_walls_resolved(i as int),
                self@.collisions == start.collisions + events,
                events <= i,
                start.collisions + n <= u64::MAX,
                total_energy(self@.bodies) == total_energy(start.bodies),
                forall|k: int|
                    0 <= k < i ==> !(#[trigger] self@.bodies[k]).past_wall(self@.wall, self@.side),
            decreases n - i,
        {
            let ghost previous = self@;
            let hit = self.resolve_wall(i);
            if hit {
                events = events + 1;
            }
            proof {
                assert forall|k: int| 0 <= k < i + 1 implies !(#[trigger] self@.bodies[k]).past_wall(
                    self@.wall,
                    self@.side,
                ) by {
                    if k < i {
                        assert(self@.bodies[k] == previous.bodies[k]);
                    }
                }
            }
            i += 1;
        }
        proof {
            lemma_walls_resolution(start, n as int);
        }
        events
    }

    /// The wall pass: every body is tested once against the wall, in index
    /// order, and each body whose leading edge has reached or crossed it is
    /// reflected: its velocity is negated and its leading edge is put on the
    /// wall. Each reflection counts as one collision. Afterwards no body
    /// reaches beyond the wall. When the counter has no room for a collision
    /// of every body, nothing changes.
    pub fn resolve_wall_collisions(&mut self) -> (result: Result<u64, StepError>)
        requires
            old(self).wf(),
        ensures
            final(self).wf(),
            match result {
                Ok(events) => {
                    &&& old(self)@.collisions + old(self)@.bodies.len() <= u64::MAX
                    &&& final(self)@ == old(self)@.walls_resolved()
                    &&& final(self)@.collisions == old(self)@.collisions + events
                    &&& events == wall_contacts(
                        old(self)@.bodies,
                        old(self)@.wall,
                        old(self)@.side,
                    ).len()
                    &&& total_energy(final(self)@.bodies) == total_energy(old(self)@.bodies)
                    &&& forall|k: int|
                        0 <= k < final(self)@.bodies.len() ==> !(#[trigger] final(self)@.bodies[k]).past_wall(final(self)@.wall, final(self)@.side)
                },
                Err(e) => {
                    &&& e == StepError::CounterExhausted
                    &&& old(self)@.collisions + old(self)@.bodies.len() > u64::MAX
                    &&& final(self)@ == old(self)@
                },
            },
    {
        if self.has_room(self.bodies.len() as u128) {
            Ok(self.resolve_walls())
        } else {
            Err(StepError::CounterExhausted)
        }
    }

    /// One fixed step of duration `dt`: the integrator, then the
    /// body-to-body pass, then the wall pass. Returns the number of
    /// collisions counted. When the step is refused, nothing changes.
    ///
    /// Overlap is tested where the bodies stand once all have moved: bodies
    /// that cross each other within the step are not seen.
    pub fn step(&mut self, dt: u64) -> (result: Result<u64, StepError>)
        requires
            old(self).wf(),
        ensures
            final(self).wf(),
            match result {
                Ok(events) => {
                    &&& old(self)@.step_fault(dt as int) is None
                    &&& final(self)@ == old(self)@.stepped(dt as int)
                    &&& final(self)@.collisions == old(self)@.collisions + events
                    &&& events == body_contacts(old(self)@.integrated(dt as int).bodies).len()
                        + wall_contacts(
                        old(self)@.integrated(dt as int).bodies,
                        old(self)@.wall,
                        old(self)@.side,
                    ).len()
                    &&& events <= old(self)@.step_capacity()
                    &&& total_energy(final(self)@.bodies) <= total_energy(old(self)@.bodies)
                    &&& forall|k: int|
                        0 <= k < final(self)@.bodies.len() ==> !(#[trigger] final(self)@.bodies[k]).past_wall(final(self)@.wall, final(self)@.side)
                },
                Err(e) => old(self)@.step_fault(dt as int) == Some(e) && final(self)@ == old(self)@,
            },
    {
        let n = self.bodies.len();
        let moved = match self.coasted(dt) {
            Ok(moved) => moved,
            Err(e) => {
                return Err(e);
            },
        };
        let capacity: u128 = pair_capacity(n) + n as u128;
        if !self.has_room(capacity) {
            return Err(StepError::CounterExhausted);
        }
        self.commit(moved, Ghost(dt as int));
        let pair_events = self.resolve_pairs();
        let wall_events = self.resolve_walls();
        proof {
            law_step(old(self)@, dt as int);
        }
        Ok(pair_events + wall_events)
    }
}

/// The number of unordered pairs among `n` bodies.
fn pair_capacity(n: usize) -> (pairs: u128)
    ensures
        pairs == pair_count(n as nat),
        pairs <= u128::MAX / 2,
{
    if n == 0 {
        0
    } else {
        let wide: u128 = n as u128;
        proof {
            lemma_pair_count(n as nat);
            assert(wide * (wide - 1) <= 0xffff_ffff_ffff_ffff * 0xffff_ffff_ffff_ffff)
                by (nonlinear_arith)
                requires
                    1 <= wide <= 0xffff_ffff_ffff_ffff,
            ;
        }
        wide * (wide - 1) / 2
    }
}

/// For a positive divisor, a product stays within a bound exactly when the
/// other factor stays within the bound's quotient.
proof fn lemma_product_within(m: int, s: int, room: int)
    requires
        m > 0,
        s >= 0,
        room >= 0,
    ensures
        m * s <= room <==> s <= room / m,
{
    vstd::arithmetic::div_mod::lemma_fundamental_div_mod(room, m);
    vstd::arithmetic::div_mod::lemma_mod_pos_bound(room, m);
    let q = room / m;
    if s <= q {
        vstd::arithmetic::mul::lemma_mul_left_inequality(m, s, q);
    } else {
        vstd::arithmetic::mul::lemma_mul_left_inequality(m, q + 1, s);
        vstd::arithmetic::mul::lemma_mul_is_distributive_add(m, q, 1);
    }
}

/// A velocity times a duration fits in 127 bits with room for a position.
proof fn lemma_shift_range(v: int, dt: int)
    requires
        -0x8000_0000_0000_0000 <= v <= 0x7fff_ffff_ffff_ffff,
        0 <= dt <= 0xffff_ffff_ffff_ffff,
    ensures
        -0x7fff_ffff_ffff_ffff_8000_0000_0000_0000 <= v * dt
            <= 0x7fff_ffff_ffff_ffff_0000_0000_0000_0000,
{
    assert(-0x7fff_ffff_ffff_ffff_8000_0000_0000_0000 <= v * dt
        <= 0x7fff_ffff_ffff_ffff_0000_0000_0000_0000) by (nonlinear_arith)
        requires
            -0x8000_0000_0000_0000 <= v <= 0x7fff_ffff_ffff_ffff,
            0 <= dt <= 0xffff_ffff_ffff_ffff,
    ;
}

} // verus!
