use vstd::prelude::*;
use vstd::seq_lib::{lemma_seq_concat_contains_all_elements, lemma_seq_contains_after_push};
use crate::body::{BodyState, WallSide};

verus! {

/// The overlapping pairs `(i, k)` with `i < k < j`, in the order of `k`.
pub open spec fn row_contacts(bodies: Seq<BodyState>, i: int, j: int) -> Seq<(int, int)>
    decreases j - i,
{
    if j <= i + 1 {
        Seq::empty()
    } else {
        let earlier = row_contacts(bodies, i, j - 1);
        if bodies[i].touches(bodies[j - 1]) {
            earlier.push((i, j - 1))
        } else {
            earlier
        }
    }
}

/// The overlapping pairs whose first index is below `i`, row after row.
pub open spec fn contacts_below(bodies: Seq<BodyState>, i: int) -> Seq<(int, int)>
    decreases i,
{
    if i <= 0 {
        Seq::empty()
    } else {
        contacts_below(bodies, i - 1) + row_contacts(bodies, i - 1, bodies.len() as int)
    }
}

/// Every unordered pair of overlapping bodies, once, as `(i, j)` with
/// `i < j`, in index order.
pub open spec fn body_contacts(bodies: Seq<BodyState>) -> Seq<(int, int)> {
    contacts_below(bodies, bodies.len() as int)
}

/// The bodies below index `k` that have reached the wall, in index order.
pub open spec fn wall_contacts_below(bodies: Seq<BodyState>, wall: int, side: WallSide, k: int) -> Seq<
    int,
>
    decreases k,
{
    if k <= 0 {
        Seq::empty()
    } else {
        let earlier = wall_contacts_below(bodies, wall, side, k - 1);
        if bodies[k - 1].at_wall(wall, side) {
            earlier.push(k - 1)
        } else {
            earlier
        }
    }
}

/// Every body that has reached the wall, once, in index order.
pub open spec fn wall_contacts(bodies: Seq<BodyState>, wall: int, side: WallSide) -> Seq<int> {
    wall_contacts_below(bodies, wall, side, bodies.len() as int)
}

/// The index pairs of a vector's contents, as mathematical integers.
pub open spec fn pair_indices(pairs: Seq<(usize, usize)>) -> Seq<(int, int)> {
    Seq::new(pairs.len(), |k: int| (pairs[k].0 as int, pairs[k].1 as int))
}

/// The indices of a vector's contents, as mathematical integers.
pub open spec fn indices(items: Seq<usize>) -> Seq<int> {
    Seq::new(items.len(), |k: int| items[k] as int)
}

/// The order in which pairs are enumerated: by first index, then by second.
pub open spec fn pair_before(p: (int, int), q: (int, int)) -> bool {
    p.0 < q.0 || (p.0 == q.0 && p.1 < q.1)
}

/// Two sequences of bodies with the same footprints.
pub open spec fn same_footprints(a: Seq<BodyState>, b: Seq<BodyState>) -> bool {
    &&& a.len() == b.len()
    &&& forall|k: int|
        0 <= k < a.len() ==> (#[trigger] a[k]).position == b[k].position && a[k].half_extent
            == b[k].half_extent
}

/// A row of contacts holds exactly the overlapping pairs of its range, each
/// once, in increasing order of the second index.
pub proof fn law_row_contacts(bodies: Seq<BodyState>, i: int, j: int)
    ensures
        forall|k: int|
            0 <= k < row_contacts(bodies, i, j).len() ==> {
                let p = #[trigger] row_contacts(bodies, i, j)[k];
                p.0 == i && i < p.1 < j && bodies[i].touches(bodies[p.1])
            },
        forall|a: int, b: int|
            0 <= a < b < row_contacts(bodies, i, j).len() ==> (#[trigger] row_contacts(
                bodies,
                i,
                j,
            )[a]).1 < (#[trigger] row_contacts(bodies, i, j)[b]).1,
        forall|m: int|
            i < m < j && bodies[i].touches(bodies[m]) ==> #[trigger] row_contacts(
                bodies,
                i,
                j,
            ).contains((i, m)),
        j > i ==> row_contacts(bodies, i, j).len() <= j - i - 1,
        j <= i ==> row_contacts(bodies, i, j).len() == 0,
    decreases j - i,
{
    if j > i + 1 {
        let earlier = row_contacts(bodies, i, j - 1);
        let row = row_contacts(bodies, i, j);
        law_row_contacts(bodies, i, j - 1);
        assert forall|m: int| i < m < j && bodies[i].touches(bodies[m]) implies #[trigger] row.contains(
            (i, m),
        ) by {
            lemma_seq_contains_after_push(earlier, (i, j - 1), (i, m));
            if m < j - 1 {
                assert(earlier.contains((i, m)));
            }
        }
    }
}

/// The contacts of the first rows hold exactly the overlapping pairs of
/// those rows, each once, in enumeration order.
pub proof fn law_contacts_below(bodies: Seq<BodyState>, i: int)
    requires
        i <= bodies.len(),
    ensures
        forall|k: int|
            0 <= k < contacts_below(bodies, i).len() ==> {
                let p = #[trigger] contacts_below(bodies, i)[k];
                0 <= p.0 < p.1 < bodies.len() && p.0 < i && bodies[p.0].touches(bodies[p.1])
            },
        forall|a: int, b: int|
            0 <= a < b < contacts_below(bodies, i).len() ==> pair_before(
                #[trigger] contacts_below(bodies, i)[a],
                #[trigger] contacts_below(bodies, i)[b],
            ),
        forall|x: int, y: int|
            0 <= x < i && x < y < bodies.len() && bodies[x].touches(bodies[y])
                ==> #[trigger] contacts_below(bodies, i).contains((x, y)),
    decreases i,
{
    if i > 0 {
        let n = bodies.len() as int;
        let earlier = contacts_below(bodies, i - 1);
        let row = row_contacts(bodies, i - 1, n);
        let all = contacts_below(bodies, i);
        law_contacts_below(bodies, i - 1);
        law_row_contacts(bodies, i - 1, n);
        assert forall|k: int| 0 <= k < all.len() implies {
            let p = #[trigger] all[k];
            0 <= p.0 < p.1 < bodies.len() && p.0 < i && bodies[p.0].touches(bodies[p.1])
        } by {
            if k < earlier.len() {
                assert(all[k] == earlier[k]);
            } else {
                assert(all[k] == row[k - earlier.len()]);
            }
        }
        assert forall|a: int, b: int| 0 <= a < b < all.len() implies pair_before(
            #[trigger] all[a],
            #[trigger] all[b],
        ) by {
            if b < earlier.len() {
                assert(all[a] == earlier[a] && all[b] == earlier[b]);
            } else if a < earlier.len() {
                assert(all[a] == earlier[a] && all[b] == row[b - earlier.len()]);
            } else {
                assert(all[a] == row[a - earlier.len()] && all[b] == row[b - earlier.len()]);
            }
        }
        assert forall|x: int, y: int|
            0 <= x < i && x < y < bodies.len() && bodies[x].touches(
                bodies[y],
            ) implies #[trigger] all.contains((x, y)) by {
            lemma_seq_concat_contains_all_elements(earlier, row, (x, y));
            if x < i - 1 {
                assert(earlier.contains((x, y)));
            } else {
                assert(row.contains((x, y)));
            }
        }
    }
}

/// The detected body contacts are exactly the overlapping pairs, each once,
/// in enumeration order.
pub proof fn law_body_contacts(bodies: Seq<BodyState>)
    ensures
        forall|k: int|
            0 <= k < body_contacts(bodies).len() ==> {
                let p = #[trigger] body_contacts(bodies)[k];
                0 <= p.0 < p.1 < bodies.len() && bodies[p.0].touches(bodies[p.1])
            },
        forall|a: int, b: int|
            0 <= a < b < body_contacts(bodies).len() ==> pair_before(
                #[trigger] body_contacts(bodies)[a],
                #[trigger] body_contacts(bodies)[b],
            ),
        forall|x: int, y: int|
            0 <= x < y < bodies.len() && bodies[x].touches(bodies[y])
                ==> #[trigger] body_contacts(bodies).contains((x, y)),
{
    law_contacts_below(bodies, bodies.len() as int);
}

/// The wall contacts below `k` are exactly the bodies below `k` that have
/// reached the wall, each once, in index order.
pub proof fn law_wall_contacts_below(bodies: Seq<BodyState>, wall: int, side: WallSide, k: int)
    ensures
        forall|a: int|
            0 <= a < wall_contacts_below(bodies, wall, side, k).len() ==> {
                let i = #[trigger] wall_contacts_below(bodies, wall, side, k)[a];
                0 <= i < k && bodies[i].at_wall(wall, side)
            },
        forall|a: int, b: int|
            0 <= a < b < wall_contacts_below(bodies, wall, side, k).len()
                ==> (#[trigger] wall_contacts_below(bodies, wall, side, k)[a])
                < (#[trigger] wall_contacts_below(bodies, wall, side, k)[b]),
        forall|i: int|
            0 <= i < k && bodies[i].at_wall(wall, side) ==> #[trigger] wall_contacts_below(
                bodies,
                wall,
                side,
                k,
            ).contains(i),
        k >= 0 ==> wall_contacts_below(bodies, wall, side, k).len() <= k,
    decreases k,
{
    if k > 0 {
        let earlier = wall_contacts_below(bodies, wall, side, k - 1);
        let all = wall_contacts_below(bodies, wall, side, k);
        law_wall_contacts_below(bodies, wall, side, k - 1);
        assert forall|i: int| 0 <= i < k && bodies[i].at_wall(wall, side) implies #[trigger] all.contains(
            i,
        ) by {
            lemma_seq_contains_after_push(earlier, k - 1, i);
            if i < k - 1 {
                assert(earlier.contains(i));
            }
        }
    }
}

/// Contacts depend on the footprints alone.
pub proof fn lemma_row_contacts_same(a: Seq<BodyState>, b: Seq<BodyState>, i: int, j: int)
    requires
        same_footprints(a, b),
        0 <= i,
        j <= a.len(),
    ensures
        row_contacts(a, i, j) == row_contacts(b, i, j),
    decreases j - i,
{
    if j > i + 1 {
        lemma_row_contacts_same(a, b, i, j - 1);
        assert(a[i].position == b[i].position && a[i].half_extent == b[i].half_extent);
        assert(a[j - 1].position == b[j - 1].position && a[j - 1].half_extent
            == b[j - 1].half_extent);
    }
}

/// Wall contacts depend on the footprints alone.
pub proof fn lemma_wall_contacts_same(
    a: Seq<BodyState>,
    b: Seq<BodyState>,
    wall: int,
    side: WallSide,
    k: int,
)
    requires
        same_footprints(a, b),
        k <= a.len(),
    ensures
        wall_contacts_below(a, wall, side, k) == wall_contacts_below(b, wall, side, k),
    decreases k,
{
    if k > 0 {
        lemma_wall_contacts_same(a, b, wall, side, k - 1);
        assert(a[k - 1].position == b[k - 1].position && a[k - 1].half_extent
            == b[k - 1].half_extent);
    }
}

} // verus!
