use vstd::prelude::*;
use vstd::arithmetic::mul::{
    lemma_mul_cancels_negatives, lemma_mul_increases, lemma_mul_inequality,
    lemma_mul_is_associative, lemma_mul_is_commutative, lemma_mul_nonnegative,
};
use crate::conservation::law_energy_within_tolerance;

verus! {

/// Quotient of `n` by a positive `d`, rounded toward zero.
pub open spec fn trunc_div(n: int, d: int) -> int {
    if n >= 0 {
        n / d
    } else {
        -((-n) / d)
    }
}

/// Numerator of the elastic law for the first body of a pair:
/// `(m1 - m2) * v1 + 2 * m2 * v2`.
pub open spec fn rebound_numerator(m1: int, v1: int, m2: int, v2: int) -> int {
    (m1 - m2) * v1 + 2 * m2 * v2
}

/// Velocity of the first body after an elastic collision with the second:
/// `((m1 - m2) * v1 + 2 * m2 * v2) / (m1 + m2)`, rounded toward zero.
pub open spec fn rebound(m1: int, v1: int, m2: int, v2: int) -> int {
    trunc_div(rebound_numerator(m1, v1, m2, v2), m1 + m2)
}

/// Momentum of a pair.
pub open spec fn pair_momentum(m1: int, v1: int, m2: int, v2: int) -> int {
    m1 * v1 + m2 * v2
}

/// Twice the kinetic energy of a pair.
pub open spec fn pair_energy(m1: int, v1: int, m2: int, v2: int) -> int {
    m1 * (v1 * v1) + m2 * (v2 * v2)
}

/// Absolute value.
pub open spec fn magnitude(x: int) -> int {
    if x >= 0 {
        x
    } else {
        -x
    }
}

/// Largest doubled kinetic energy a pair or a world may carry: two to the
/// power 124. It keeps every speed within [`SPEED_LIMIT`].
pub const ENERGY_LIMIT: u128 = 0x1000_0000_0000_0000_0000_0000_0000_0000;

/// Largest speed a body can have under [`ENERGY_LIMIT`]: two to the power 62.
pub const SPEED_LIMIT: i64 = 0x4000_0000_0000_0000;

/// Mass times velocity squared is never negative for a positive mass.
pub proof fn lemma_energy_nonnegative(m: int, v: int)
    requires
        m > 0,
    ensures
        v * v >= 0,
        m * (v * v) >= 0,
{
    if v >= 0 {
        lemma_mul_nonnegative(v, v);
    } else {
        lemma_mul_nonnegative(-v, -v);
        lemma_mul_cancels_negatives(v, v);
    }
    lemma_mul_nonnegative(m, v * v);
}

/// A body of positive mass whose doubled energy is within the limit moves no
/// faster than the speed limit.
pub proof fn lemma_speed_within_limit(m: int, v: int)
    requires
        m > 0,
        m * (v * v) <= ENERGY_LIMIT,
    ensures
        -SPEED_LIMIT <= v <= SPEED_LIMIT,
{
    let s = SPEED_LIMIT as int + 1;
    assert(0x4000_0000_0000_0001int * 0x4000_0000_0000_0001int > ENERGY_LIMIT);
    if v >= s {
        lemma_mul_inequality(s, v, s);
        lemma_mul_inequality(s, v, v);
        lemma_mul_is_commutative(s, v);
        lemma_mul_increases(m, v * v);
    } else if -v >= s {
        let a = -v;
        lemma_mul_inequality(s, a, s);
        lemma_mul_inequality(s, a, a);
        lemma_mul_is_commutative(s, a);
        lemma_mul_cancels_negatives(v, v);
        lemma_mul_increases(m, v * v);
    }
}

/// Post-collision velocities of a pair under the elastic law, each rounded
/// toward zero: `((m1 - m2) * v1 + 2 * m2 * v2) / (m1 + m2)` for the first
/// body and the mirrored expression for the second. Equal masses exchange
/// their velocities. The masses must be positive and the pair's doubled
/// kinetic energy within [`ENERGY_LIMIT`], which keeps every intermediate
/// value within 128 bits and both results within 64.
pub fn elastic_velocities(m1: i64, v1: i64, m2: i64, v2: i64) -> (after: (i64, i64))
    requires
        m1 > 0,
        m2 > 0,
        pair_energy(m1 as int, v1 as int, m2 as int, v2 as int) <= ENERGY_LIMIT,
    ensures
        after.0 == rebound(m1 as int, v1 as int, m2 as int, v2 as int),
        after.1 == rebound(m2 as int, v2 as int, m1 as int, v1 as int),
        pair_energy(m1 as int, after.0 as int, m2 as int, after.1 as int) <= pair_energy(
            m1 as int,
            v1 as int,
            m2 as int,
            v2 as int,
        ),
{
    let ghost w1 = rebound(m1 as int, v1 as int, m2 as int, v2 as int);
    let ghost w2 = rebound(m2 as int, v2 as int, m1 as int, v1 as int);
    proof {
        lemma_energy_nonnegative(m1 as int, v1 as int);
        lemma_energy_nonnegative(m2 as int, v2 as int);
        lemma_speed_within_limit(m1 as int, v1 as int);
        lemma_speed_within_limit(m2 as int, v2 as int);
        law_energy_within_tolerance(m1 as int, v1 as int, m2 as int, v2 as int);
        lemma_energy_nonnegative(m1 as int, w1);
        lemma_energy_nonnegative(m2 as int, w2);
        lemma_speed_within_limit(m1 as int, w1);
        lemma_speed_within_limit(m2 as int, w2);
    }
    let total: i128 = m1 as i128 + m2 as i128;
    let d12: i128 = m1 as i128 - m2 as i128;
    let d21: i128 = m2 as i128 - m1 as i128;
    let twice_m1: i128 = 2 * (m1 as i128);
    let twice_m2: i128 = 2 * (m2 as i128);
    proof {
        lemma_difference_product_range(d12 as int, v1 as int);
        lemma_difference_product_range(d21 as int, v2 as int);
        lemma_double_product_range(twice_m2 as int, v2 as int);
        lemma_double_product_range(twice_m1 as int, v1 as int);
    }
    let n1: i128 = d12 * (v1 as i128) + twice_m2 * (v2 as i128);
    let n2: i128 = d21 * (v2 as i128) + twice_m1 * (v1 as i128);
    proof {
        lemma_mul_is_associative(2, m2 as int, v2 as int);
        lemma_mul_is_associative(2, m1 as int, v1 as int);
        assert(n1 == rebound_numerator(m1 as int, v1 as int, m2 as int, v2 as int));
        assert(n2 == rebound_numerator(m2 as int, v2 as int, m1 as int, v1 as int));
    }
    let q1: i128 = n1 / total;
    let q2: i128 = n2 / total;
    (q1 as i64, q2 as i64)
}

/// A difference of two masses times a speed within the limit stays within
/// two to the power 125.
proof fn lemma_difference_product_range(a: int, v: int)
    requires
        -0x8000_0000_0000_0000 <= a <= 0x8000_0000_0000_0000,
        -SPEED_LIMIT <= v <= SPEED_LIMIT,
    ensures
        -0x2000_0000_0000_0000_0000_0000_0000_0000 <= a * v
            <= 0x2000_0000_0000_0000_0000_0000_0000_0000,
{
    assert(-0x2000_0000_0000_0000_0000_0000_0000_0000 <= a * v
        <= 0x2000_0000_0000_0000_0000_0000_0000_0000) by (nonlinear_arith)
        requires
            -0x8000_0000_0000_0000 <= a <= 0x8000_0000_0000_0000,
            -0x4000_0000_0000_0000 <= v <= 0x4000_0000_0000_0000,
    ;
}

/// Twice a mass times a speed within the limit stays below two to the
/// power 126.
proof fn lemma_double_product_range(a: int, v: int)
    requires
        0 <= a <= 0xffff_ffff_ffff_fffe,
        -SPEED_LIMIT <= v <= SPEED_LIMIT,
    ensures
        -0x4000_0000_0000_0000_0000_0000_0000_0000 < a * v
            < 0x4000_0000_0000_0000_0000_0000_0000_0000,
{
    assert(-0x4000_0000_0000_0000_0000_0000_0000_0000 < a * v
        < 0x4000_0000_0000_0000_0000_0000_0000_0000) by (nonlinear_arith)
        requires
            0 <= a <= 0xffff_ffff_ffff_fffe,
            -0x4000_0000_0000_0000 <= v <= 0x4000_0000_0000_0000,
    ;
}

} // verus!
