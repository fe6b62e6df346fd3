use vstd::prelude::*;
use crate::body::BodyState;
use crate::elastic::lemma_energy_nonnegative;

verus! {

/// Every body of the sequence has positive mass and positive half-extent.
pub open spec fn all_valid(bodies: Seq<BodyState>) -> bool {
    forall|i: int| 0 <= i < bodies.len() ==> (#[trigger] bodies[i]).valid()
}

/// Twice the kinetic energy of all bodies together.
pub open spec fn total_energy(bodies: Seq<BodyState>) -> int
    decreases bodies.len(),
{
    if bodies.len() == 0 {
        0
    } else {
        total_energy(bodies.drop_last()) + bodies.last().doubled_energy()
    }
}

/// Extending a prefix by one body adds that body's energy.
pub proof fn lemma_total_energy_prefix(bodies: Seq<BodyState>, k: int)
    requires
        0 <= k < bodies.len(),
    ensures
        total_energy(bodies.take(k + 1)) == total_energy(bodies.take(k))
            + bodies[k].doubled_energy(),
{
    assert(bodies.take(k + 1).drop_last() =~= bodies.take(k));
}

/// Bodies of positive mass never carry negative energy.
pub proof fn lemma_total_energy_nonnegative(bodies: Seq<BodyState>)
    requires
        all_valid(bodies),
    ensures
        total_energy(bodies) >= 0,
    decreases bodies.len(),
{
    if bodies.len() > 0 {
        assert(bodies.last().valid());
        assert(all_valid(bodies.drop_last()));
        lemma_total_energy_nonnegative(bodies.drop_last());
        lemma_energy_nonnegative(bodies.last().mass, bodies.last().velocity);
    }
}

/// Replacing one body changes the total by the difference of the two
/// energies.
pub proof fn lemma_total_energy_update(bodies: Seq<BodyState>, i: int, body: BodyState)
    requires
        0 <= i < bodies.len(),
    ensures
        total_energy(bodies.update(i, body)) == total_energy(bodies) - bodies[i].doubled_energy()
            + body.doubled_energy(),
    decreases bodies.len(),
{
    let updated = bodies.update(i, body);
    if i == bodies.len() - 1 {
        assert(updated.drop_last() =~= bodies.drop_last());
    } else {
        assert(updated.drop_last() =~= bodies.drop_last().update(i, body));
        lemma_total_energy_update(bodies.drop_last(), i, body);
    }
}

/// No body carries more than the total.
pub proof fn lemma_energy_share(bodies: Seq<BodyState>, i: int)
    requires
        all_valid(bodies),
        0 <= i < bodies.len(),
    ensures
        0 <= bodies[i].doubled_energy() <= total_energy(bodies),
{
    let still = bodies[i].with_velocity(0);
    let rest = bodies.update(i, still);
    assert(bodies[i].valid());
    assert(0int * 0int == 0);
    assert(still.mass * 0 == 0);
    assert(all_valid(rest)) by {
        assert forall|k: int| 0 <= k < rest.len() implies (#[trigger] rest[k]).valid() by {
            if k != i {
                assert(bodies[k].valid());
            }
        }
    }
    lemma_total_energy_update(bodies, i, still);
    lemma_total_energy_nonnegative(rest);
    lemma_energy_nonnegative(bodies[i].mass, bodies[i].velocity);
}

/// No two distinct bodies together carry more than the total.
pub proof fn lemma_energy_share_of_pair(bodies: Seq<BodyState>, i: int, j: int)
    requires
        all_valid(bodies),
        0 <= i < bodies.len(),
        0 <= j < bodies.len(),
        i != j,
    ensures
        bodies[i].doubled_energy() + bodies[j].doubled_energy() <= total_energy(bodies),
{
    let still = bodies[i].with_velocity(0);
    let rest = bodies.update(i, still);
    assert(bodies[i].valid());
    assert(0int * 0int == 0);
    assert(still.mass * 0 == 0);
    assert(all_valid(rest)) by {
        assert forall|k: int| 0 <= k < rest.len() implies (#[trigger] rest[k]).valid() by {
            if k != i {
                assert(bodies[k].valid());
            }
        }
    }
    lemma_total_energy_update(bodies, i, still);
    lemma_energy_share(rest, j);
}

/// The total depends only on the masses and the velocities.
pub proof fn lemma_total_energy_same(a: Seq<BodyState>, b: Seq<BodyState>)
    requires
        a.len() == b.len(),
        forall|i: int|
            0 <= i < a.len() ==> (#[trigger] a[i]).mass == b[i].mass && a[i].velocity
                == b[i].velocity,
    ensures
        total_energy(a) == total_energy(b),
    decreases a.len(),
{
    if a.len() > 0 {
        let n = a.len() - 1;
        assert(a[n].mass == b[n].mass && a[n].velocity == b[n].velocity);
        assert forall|i: int| 0 <= i < a.drop_last().len() implies (#[trigger] a.drop_last()[i]).mass
            == b.drop_last()[i].mass && a.drop_last()[i].velocity == b.drop_last()[i].velocity by {
            assert(a[i].mass == b[i].mass && a[i].velocity == b[i].velocity);
        }
        lemma_total_energy_same(a.drop_last(), b.drop_last());
    }
}

} // verus!
