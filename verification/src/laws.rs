use vstd::prelude::*;
use crate::body::BodyState;
use crate::conservation::{law_energy_within_tolerance, law_reflection};
use crate::detection::{
    body_contacts, contacts_below, law_row_contacts, law_wall_contacts_below,
    lemma_row_contacts_same, lemma_wall_contacts_same, row_contacts, same_footprints,
    wall_contacts, wall_contacts_below,
};
use crate::energy::{all_valid, lemma_total_energy_same, lemma_total_energy_update, total_energy};
use crate::model::{pair_count, WorldModel};

verus! {

/// Two states of one track: the same wall, and body for body the same mass
/// and half-extent.
pub open spec fn same_track(a: WorldModel, b: WorldModel) -> bool {
    &&& a.wall == b.wall
    &&& a.side == b.side
    &&& a.bodies.len() == b.bodies.len()
    &&& forall|k: int|
        0 <= k < a.bodies.len() ==> (#[trigger] b.bodies[k]).mass == a.bodies[k].mass
            && b.bodies[k].half_extent == a.bodies[k].half_extent
}

/// Body for body the same position.
pub open spec fn same_positions(a: WorldModel, b: WorldModel) -> bool {
    &&& a.bodies.len() == b.bodies.len()
    &&& forall|k: int|
        0 <= k < a.bodies.len() ==> (#[trigger] b.bodies[k]).position == a.bodies[k].position
}

/// The state after each step of the given durations in turn.
pub open spec fn stepped_through(world: WorldModel, durations: Seq<int>) -> WorldModel
    decreases durations.len(),
{
    if durations.len() == 0 {
        world
    } else {
        stepped_through(world, durations.drop_last()).stepped(durations.last())
    }
}

/// The collision count before the first step and after each step.
pub open spec fn count_trajectory(world: WorldModel, durations: Seq<int>) -> Seq<nat> {
    Seq::new(
        durations.len() + 1,
        |k: int| stepped_through(world, durations.take(k)).collisions,
    )
}

/// A body at rest stays where it is, whatever the duration.
pub proof fn law_rest_stays(body: BodyState, dt: int)
    requires
        body.velocity == 0,
    ensures
        body.moved(dt) == body,
{
    assert(0 * dt == 0);
}

/// Integration moves each body by its own velocity times the duration and
/// touches nothing else.
pub proof fn law_integration(world: WorldModel, dt: int)
    ensures
        same_track(world, world.integrated(dt)),
        world.integrated(dt).collisions == world.collisions,
        forall|k: int|
            0 <= k < world.bodies.len() ==> (#[trigger] world.integrated(dt).bodies[k]).position
                == world.bodies[k].position + world.bodies[k].velocity * dt
                && world.integrated(dt).bodies[k].velocity == world.bodies[k].velocity,
        total_energy(world.integrated(dt).bodies) == total_energy(world.bodies),
{
    lemma_total_energy_same(world.integrated(dt).bodies, world.bodies);
}

/// Resolving one pair counts one collision exactly when the pair overlaps,
/// changes no position, and never adds energy.
pub proof fn law_pair_resolution(world: WorldModel, i: int, j: int)
    requires
        0 <= i < j < world.bodies.len(),
    ensures
        same_track(world, world.with_pair_resolved(i, j)),
        same_positions(world, world.with_pair_resolved(i, j)),
        world.with_pair_resolved(i, j).collisions == world.collisions + if world.bodies[i].touches(
            world.bodies[j],
        ) {
            1nat
        } else {
            0nat
        },
        all_valid(world.bodies) ==> all_valid(world.with_pair_resolved(i, j).bodies)
            && total_energy(world.with_pair_resolved(i, j).bodies) <= total_energy(world.bodies),
{
    let a = world.bodies[i];
    let b = world.bodies[j];
    let after = world.with_pair_resolved(i, j);
    if a.touches(b) && all_valid(world.bodies) {
        assert(a.valid() && b.valid());
        let a_after = after.bodies[i];
        let b_after = after.bodies[j];
        let middle = world.bodies.update(i, a_after);
        assert(after.bodies =~= middle.update(j, b_after));
        lemma_total_energy_update(world.bodies, i, a_after);
        lemma_total_energy_update(middle, j, b_after);
        law_energy_within_tolerance(a.mass, a.velocity, b.mass, b.velocity);
        assert forall|k: int| 0 <= k < after.bodies.len() implies (#[trigger] after.bodies[k]).valid() by {
            assert(world.bodies[k].valid());
        }
    }
}

/// Resolving part of a row keeps the track and the positions, counts one
/// collision for each overlapping pair of that part, and never adds energy.
pub proof fn lemma_row_resolution(world: WorldModel, i: int, j: int)
    requires
        0 <= i < world.bodies.len(),
        j <= world.bodies.len(),
    ensures
        same_track(world, world.with_row_resolved(i, j)),
        same_positions(world, world.with_row_resolved(i, j)),
        world.with_row_resolved(i, j).collisions == world.collisions + row_contacts(
            world.bodies,
            i,
            j,
        ).len(),
        all_valid(world.bodies) ==> all_valid(world.with_row_resolved(i, j).bodies)
            && total_energy(world.with_row_resolved(i, j).bodies) <= total_energy(world.bodies),
    decreases j - i,
{
    if j > i + 1 {
        let earlier = world.with_row_resolved(i, j - 1);
        lemma_row_resolution(world, i, j - 1);
        law_pair_resolution(earlier, i, j - 1);
        let after = earlier.with_pair_resolved(i, j - 1);
        assert forall|k: int| 0 <= k < world.bodies.len() implies (#[trigger] after.bodies[k]).mass
            == world.bodies[k].mass && after.bodies[k].half_extent == world.bodies[k].half_extent
            && after.bodies[k].position == world.bodies[k].position by {
            assert(earlier.bodies[k].mass == world.bodies[k].mass);
        }
    }
}

/// Resolving the first rows keeps the track and the positions, counts one
/// collision for each overlapping pair of those rows, and never adds energy.
pub proof fn lemma_rows_resolution(world: WorldModel, i: int)
    requires
        i <= world.bodies.len(),
    ensures
        same_track(world, world.with_rows_resolved(i)),
        same_positions(world, world.with_rows_resolved(i)),
        world.with_rows_resolved(i).collisions == world.collisions + contacts_below(
            world.bodies,
            i,
        ).len(),
        all_valid(world.bodies) ==> all_valid(world.with_rows_resolved(i).bodies) && total_energy(
            world.with_rows_resolved(i).bodies,
        ) <= total_energy(world.bodies),
    decreases i,
{
    if i > 0 {
        let n = world.bodies.len() as int;
        let earlier = world.with_rows_resolved(i - 1);
        lemma_rows_resolution(world, i - 1);
        lemma_row_resolution(earlier, i - 1, n);
        let after = earlier.with_row_resolved(i - 1, n);
        assert forall|k: int| 0 <= k < world.bodies.len() implies (#[trigger] after.bodies[k]).mass
            == world.bodies[k].mass && after.bodies[k].half_extent == world.bodies[k].half_extent
            && after.bodies[k].position == world.bodies[k].position by {
            assert(earlier.bodies[k].mass == world.bodies[k].mass);
        }
        assert(same_footprints(earlier.bodies, world.bodies)) by {
            assert forall|k: int| 0 <= k < n implies (#[trigger] earlier.bodies[k]).position
                == world.bodies[k].position && earlier.bodies[k].half_extent
                == world.bodies[k].half_extent by {}
        }
        lemma_row_contacts_same(earlier.bodies, world.bodies, i - 1, n);
    }
}

/// With two bodies the body-to-body pass is the resolution of their one
/// pair.
pub proof fn law_two_body_pass(world: WorldModel)
    requires
        world.bodies.len() == 2,
    ensures
        world.bodies_resolved() == world.with_pair_resolved(0, 1),
{
    reveal_with_fuel(WorldModel::with_rows_resolved, 3);
    reveal_with_fuel(WorldModel::with_row_resolved, 3);
    let first = world.with_rows_resolved(1);
    assert(first == world.with_pair_resolved(0, 1));
    law_pair_resolution(world, 0, 1);
    assert(world.bodies_resolved() == first.with_row_resolved(1, 2));
}

/// Testing one body against the wall counts one collision exactly when the
/// body has reached the wall, leaves the body clear of the wall, and keeps
/// the energy.
pub proof fn law_wall_resolution(world: WorldModel, i: int)
    requires
        0 <= i < world.bodies.len(),
    ensures
        same_track(world, world.with_wall_resolved(i)),
        world.with_wall_resolved(i).collisions == world.collisions + if world.bodies[i].at_wall(
            world.wall,
            world.side,
        ) {
            1nat
        } else {
            0nat
        },
        !world.with_wall_resolved(i).bodies[i].past_wall(world.wall, world.side),
        forall|k: int|
            0 <= k < world.bodies.len() && k != i ==> (#[trigger] world.with_wall_resolved(
                i,
            ).bodies[k]) == world.bodies[k],
        total_energy(world.with_wall_resolved(i).bodies) == total_energy(world.bodies),
{
    let b = world.bodies[i];
    if b.at_wall(world.wall, world.side) {
        law_reflection(b, world.wall, world.side);
        lemma_total_energy_update(world.bodies, i, b.bounced(world.wall, world.side));
    }
}

/// Testing the first bodies against the wall keeps the track and the
/// energy, counts one collision for each of them that has reached the wall,
/// leaves those bodies clear of the wall and the others as they were.
pub proof fn lemma_walls_resolution(world: WorldModel, k: int)
    requires
        k <= world.bodies.len(),
    ensures
        same_track(world, world.with_walls_resolved(k)),
        world.with_walls_resolved(k).collisions == world.collisions + wall_contacts_below(
            world.bodies,
            world.wall,
            world.side,
            k,
        ).len(),
        forall|j: int|
            0 <= j < k ==> !(#[trigger] world.with_walls_resolved(k).bodies[j]).past_wall(
                world.wall,
                world.side,
            ),
        forall|j: int|
            0 <= k <= j < world.bodies.len() ==> (#[trigger] world.with_walls_resolved(
                k,
            ).bodies[j]) == world.bodies[j],
        total_energy(world.with_walls_resolved(k).bodies) == total_energy(world.bodies),
    decreases k,
{
    if k > 0 {
        let earlier = world.with_walls_resolved(k - 1);
        lemma_walls_resolution(world, k - 1);
        law_wall_resolution(earlier, k - 1);
        let after = earlier.with_wall_resolved(k - 1);
        assert forall|j: int| 0 <= j < world.bodies.len() implies (#[trigger] after.bodies[j]).mass
            == world.bodies[j].mass && after.bodies[j].half_extent
            == world.bodies[j].half_extent by {
            assert(earlier.bodies[j].mass == world.bodies[j].mass);
        }
        assert forall|j: int| 0 <= j < k implies !(#[trigger] after.bodies[j]).past_wall(
            world.wall,
            world.side,
        ) by {
            if j < k - 1 {
                assert(after.bodies[j] == earlier.bodies[j]);
            }
        }
        assert forall|j: int| k <= j < world.bodies.len() implies (#[trigger] after.bodies[j])
            == world.bodies[j] by {
            assert(after.bodies[j] == earlier.bodies[j]);
        }
    }
}

/// There are no more contacts in the first rows than pairs in them.
pub proof fn lemma_contacts_count(bodies: Seq<BodyState>, i: int)
    requires
        0 <= i <= bodies.len(),
    ensures
        contacts_below(bodies, i).len() + pair_count((bodies.len() - i) as nat) <= pair_count(
            bodies.len(),
        ),
    decreases i,
{
    let n = bodies.len() as int;
    if i > 0 {
        lemma_contacts_count(bodies, i - 1);
        law_row_contacts(bodies, i - 1, n);
        assert(pair_count((n - i + 1) as nat) == pair_count((n - i) as nat) + (n - i));
    }
}

/// One step keeps the track, raises the collision count by one for each
/// pair that overlaps and one for each body that has reached the wall once
/// all have moved, leaves every body clear of the wall, and never adds
/// energy.
pub proof fn law_step(world: WorldModel, dt: int)
    ensures
        same_track(world, world.stepped(dt)),
        world.stepped(dt).collisions == world.collisions + body_contacts(
            world.integrated(dt).bodies,
        ).len() + wall_contacts(world.integrated(dt).bodies, world.wall, world.side).len(),
        world.collisions <= world.stepped(dt).collisions <= world.collisions
            + world.step_capacity(),
        forall|k: int|
            0 <= k < world.bodies.len() ==> !(#[trigger] world.stepped(dt).bodies[k]).past_wall(
                world.wall,
                world.side,
            ),
        all_valid(world.bodies) ==> all_valid(world.stepped(dt).bodies) && total_energy(
            world.stepped(dt).bodies,
        ) <= total_energy(world.bodies),
{
    let n = world.bodies.len() as int;
    let moved = world.integrated(dt);
    let settled = moved.bodies_resolved();
    let after = settled.walls_resolved();
    law_integration(world, dt);
    lemma_rows_resolution(moved, n);
    lemma_walls_resolution(settled, n);
    assert(same_footprints(settled.bodies, moved.bodies)) by {
        assert forall|k: int| 0 <= k < n implies (#[trigger] settled.bodies[k]).position
            == moved.bodies[k].position && settled.bodies[k].half_extent
            == moved.bodies[k].half_extent by {}
    }
    lemma_wall_contacts_same(settled.bodies, moved.bodies, world.wall, world.side, n);
    lemma_contacts_count(moved.bodies, n);
    law_wall_contacts_below(moved.bodies, world.wall, world.side, n);
    assert forall|k: int| 0 <= k < n implies (#[trigger] after.bodies[k]).mass
        == world.bodies[k].mass && after.bodies[k].half_extent == world.bodies[k].half_extent by {
        assert(moved.bodies[k].mass == world.bodies[k].mass);
        assert(settled.bodies[k].mass == moved.bodies[k].mass);
    }
    if all_valid(world.bodies) {
        assert forall|k: int| 0 <= k < n implies (#[trigger] moved.bodies[k]).valid() by {
            assert(world.bodies[k].valid());
        }
        assert forall|k: int| 0 <= k < n implies (#[trigger] after.bodies[k]).valid() by {
            assert(world.bodies[k].valid());
        }
    }
}

/// The collision count never decreases along any sequence of steps.
pub proof fn law_collisions_never_decrease(
    world: WorldModel,
    durations: Seq<int>,
    earlier: int,
    later: int,
)
    requires
        0 <= earlier <= later <= durations.len(),
    ensures
        stepped_through(world, durations.take(earlier)).collisions <= stepped_through(
            world,
            durations.take(later),
        ).collisions,
    decreases later - earlier,
{
    if earlier < later {
        law_collisions_never_decrease(world, durations, earlier, later - 1);
        assert(durations.take(later).drop_last() =~= durations.take(later - 1));
        law_step(stepped_through(world, durations.take(later - 1)), durations[later - 1]);
    }
}

/// Equal initial states stepped through equal durations give equal
/// collision counts at every step.
pub proof fn law_runs_agree(
    first: WorldModel,
    second: WorldModel,
    first_durations: Seq<int>,
    second_durations: Seq<int>,
)
    requires
        first == second,
        first_durations == second_durations,
    ensures
        count_trajectory(first, first_durations) == count_trajectory(second, second_durations),
{
}

} // verus!
