use vstd::prelude::*;
use vstd::arithmetic::div_mod::{
    lemma_div_multiples_vanish, lemma_div_pos_is_pos, lemma_fundamental_div_mod,
    lemma_mod_multiples_basic, lemma_mod_multiples_vanish, lemma_mod_pos_bound,
};
use vstd::arithmetic::mul::{
    lemma_mul_cancels_negatives, lemma_mul_equality_converse, lemma_mul_inequality_converse,
    lemma_mul_is_associative, lemma_mul_is_commutative, lemma_mul_is_distributive_add,
    lemma_mul_is_distributive_add_other_way, lemma_mul_is_distributive_sub,
    lemma_mul_is_distributive_sub_other_way, lemma_mul_left_inequality, lemma_mul_nonnegative,
    lemma_mul_strict_inequality_converse, lemma_mul_strictly_positive, lemma_mul_unary_negation,
};
use crate::body::{BodyState, WallSide};
use crate::elastic::{
    magnitude, pair_energy, pair_momentum, rebound, rebound_numerator, trunc_div,
};

verus! {

/// What rounding toward zero leaves behind: quotient and remainder have the
/// sign of the dividend, and the remainder is smaller than the divisor.
pub proof fn lemma_trunc_div(n: int, d: int)
    requires
        d > 0,
    ensures
        n >= 0 ==> 0 <= trunc_div(n, d) * d <= n && n - trunc_div(n, d) * d < d,
        n <= 0 ==> n <= trunc_div(n, d) * d <= 0 && trunc_div(n, d) * d - n < d,
        n >= 0 ==> trunc_div(n, d) >= 0,
        n <= 0 ==> trunc_div(n, d) <= 0,
        n % d == 0 ==> trunc_div(n, d) * d == n,
{
    if n >= 0 {
        lemma_fundamental_div_mod(n, d);
        lemma_mod_pos_bound(n, d);
        lemma_div_pos_is_pos(n, d);
        lemma_mul_is_commutative(d, n / d);
        lemma_mul_nonnegative(n / d, d);
    } else {
        let a = -n;
        lemma_fundamental_div_mod(a, d);
        lemma_mod_pos_bound(a, d);
        lemma_div_pos_is_pos(a, d);
        lemma_mul_is_commutative(d, a / d);
        lemma_mul_nonnegative(a / d, d);
        lemma_mul_unary_negation(a / d, d);
        if n % d == 0 {
            lemma_fundamental_div_mod(n, d);
            lemma_mul_unary_negation(d, n / d);
            lemma_mul_is_commutative(d, -(n / d));
            lemma_mod_multiples_basic(-(n / d), d);
        }
    }
}

/// Square of a difference.
proof fn lemma_square_of_difference(a: int, b: int)
    ensures
        (a - b) * (a - b) == a * a - 2 * (a * b) + b * b,
{
    lemma_mul_is_distributive_sub(a - b, a, b);
    lemma_mul_is_distributive_sub_other_way(a, a, b);
    lemma_mul_is_distributive_sub_other_way(b, a, b);
    lemma_mul_is_commutative(a, b);
}

/// Square of a sum.
proof fn lemma_square_of_sum(a: int, b: int)
    ensures
        (a + b) * (a + b) == a * a + 2 * (a * b) + b * b,
{
    lemma_mul_is_distributive_add(a + b, a, b);
    lemma_mul_is_distributive_add_other_way(a, a, b);
    lemma_mul_is_distributive_add_other_way(b, a, b);
    lemma_mul_is_commutative(a, b);
}

/// Product of two products, regrouped factor by factor.
proof fn lemma_product_of_products(a: int, b: int, c: int, d: int)
    ensures
        (a * b) * (c * d) == (a * c) * (b * d),
{
    lemma_mul_is_associative(a, b, c * d);
    lemma_mul_is_associative(b, c, d);
    lemma_mul_is_commutative(b, c);
    lemma_mul_is_associative(c, b, d);
    lemma_mul_is_associative(a, c, b * d);
}

/// Total mass times twice the kinetic energy of a pair is the square of its
/// momentum plus the product of the masses times the square of the relative
/// velocity.
proof fn lemma_energy_split(m1: int, a: int, m2: int, b: int)
    ensures
        (m1 + m2) * (m1 * (a * a) + m2 * (b * b)) == (m1 * a + m2 * b) * (m1 * a + m2 * b) + (m1
            * m2) * ((a - b) * (a - b)),
{
    let aa = a * a;
    let bb = b * b;
    let ab = a * b;
    let p = m1 * a;
    let q = m2 * b;
    let k = m1 * m2;
    lemma_square_of_difference(a, b);
    lemma_square_of_sum(p, q);
    lemma_product_of_products(m1, a, m1, a);
    lemma_product_of_products(m2, b, m2, b);
    lemma_product_of_products(m1, a, m2, b);
    assert(p * p == (m1 * m1) * aa);
    assert(q * q == (m2 * m2) * bb);
    assert(p * q == k * ab);
    // k * (aa - 2ab + bb)
    lemma_mul_is_distributive_add(k, aa - 2 * ab, bb);
    lemma_mul_is_distributive_sub(k, aa, 2 * ab);
    lemma_mul_is_associative(k, 2, ab);
    lemma_mul_is_commutative(k, 2);
    lemma_mul_is_associative(2, k, ab);
    assert(k * ((a - b) * (a - b)) == k * aa - 2 * (k * ab) + k * bb);
    // (m1 + m2) * (m1 aa + m2 bb)
    let x = m1 * aa;
    let y = m2 * bb;
    lemma_mul_is_distributive_add_other_way(x + y, m1, m2);
    lemma_mul_is_distributive_add(m1, x, y);
    lemma_mul_is_distributive_add(m2, x, y);
    lemma_mul_is_associative(m1, m1, aa);
    lemma_mul_is_associative(m1, m2, bb);
    lemma_mul_is_associative(m2, m1, aa);
    lemma_mul_is_commutative(m2, m1);
    lemma_mul_is_associative(m2, m2, bb);
    assert((m1 + m2) * (x + y) == (m1 * m1) * aa + k * bb + k * aa + (m2 * m2) * bb);
}

/// The two numerators of the elastic law carry the pair's momentum, scaled
/// by the total mass.
pub proof fn lemma_momentum_identity(m1: int, v1: int, m2: int, v2: int)
    ensures
        m1 * rebound_numerator(m1, v1, m2, v2) + m2 * rebound_numerator(m2, v2, m1, v1) == (m1
            + m2) * pair_momentum(m1, v1, m2, v2),
{
    let a = m1 * v1;
    let b = m2 * v2;
    let c = m2 * v1;
    let e = m1 * v2;
    lemma_mul_is_distributive_sub_other_way(v1, m1, m2);
    lemma_mul_is_distributive_sub_other_way(v2, m2, m1);
    lemma_mul_is_associative(2, m2, v2);
    lemma_mul_is_associative(2, m1, v1);
    assert(rebound_numerator(m1, v1, m2, v2) == a - c + 2 * b);
    assert(rebound_numerator(m2, v2, m1, v1) == b - e + 2 * a);
    lemma_mul_is_distributive_add(m1, a - c, 2 * b);
    lemma_mul_is_distributive_sub(m1, a, c);
    lemma_mul_is_associative(m1, 2, b);
    lemma_mul_is_commutative(m1, 2);
    lemma_mul_is_associative(2, m1, b);
    assert(m1 * (a - c + 2 * b) == m1 * a - m1 * c + 2 * (m1 * b));
    lemma_mul_is_distributive_add(m2, b - e, 2 * a);
    lemma_mul_is_distributive_sub(m2, b, e);
    lemma_mul_is_associative(m2, 2, a);
    lemma_mul_is_commutative(m2, 2);
    lemma_mul_is_associative(2, m2, a);
    assert(m2 * (b - e + 2 * a) == m2 * b - m2 * e + 2 * (m2 * a));
    lemma_mul_is_distributive_add_other_way(a + b, m1, m2);
    lemma_mul_is_distributive_add(m1, a, b);
    lemma_mul_is_distributive_add(m2, a, b);
    assert((m1 + m2) * (a + b) == m1 * a + m1 * b + m2 * a + m2 * b);
    // m1 * c == m2 * a and m2 * e == m1 * b
    lemma_mul_is_associative(m1, m2, v1);
    lemma_mul_is_associative(m2, m1, v1);
    lemma_mul_is_commutative(m1, m2);
    lemma_mul_is_associative(m2, m1, v2);
    lemma_mul_is_associative(m1, m2, v2);
    assert(m1 * c == m2 * a);
    assert(m2 * e == m1 * b);
}

/// The two numerators of the elastic law carry the pair's kinetic energy,
/// scaled by the square of the total mass.
pub proof fn lemma_energy_identity(m1: int, v1: int, m2: int, v2: int)
    requires
        m1 + m2 > 0,
    ensures
        m1 * (rebound_numerator(m1, v1, m2, v2) * rebound_numerator(m1, v1, m2, v2)) + m2 * (
        rebound_numerator(m2, v2, m1, v1) * rebound_numerator(m2, v2, m1, v1)) == ((m1 + m2) * (m1
            + m2)) * pair_energy(m1, v1, m2, v2),
{
    let n1 = rebound_numerator(m1, v1, m2, v2);
    let n2 = rebound_numerator(m2, v2, m1, v1);
    let total = m1 + m2;
    let tt = total * total;
    let p = pair_momentum(m1, v1, m2, v2);
    let u = v1 - v2;
    let k = m1 * m2;
    let before = pair_energy(m1, v1, m2, v2);
    let after = m1 * (n1 * n1) + m2 * (n2 * n2);
    lemma_momentum_identity(m1, v1, m2, v2);
    lemma_numerators_congruent(m1, v1, m2, v2);
    lemma_energy_split(m1, n1, m2, n2);
    lemma_energy_split(m1, v1, m2, v2);
    assert(total * before == p * p + k * (u * u));
    assert(total * after == (total * p) * (total * p) + k * ((n1 - n2) * (n1 - n2)));
    assert((n1 - n2) * (n1 - n2) == (total * u) * (total * u)) by {
        assert(n1 - n2 == -(total * u));
        lemma_mul_cancels_negatives(total * u, total * u);
    }
    lemma_product_of_products(total, p, total, p);
    lemma_product_of_products(total, u, total, u);
    lemma_mul_is_associative(k, tt, u * u);
    lemma_mul_is_commutative(k, tt);
    lemma_mul_is_associative(tt, k, u * u);
    lemma_mul_is_distributive_add(tt, p * p, k * (u * u));
    assert(total * after == tt * (total * before));
    lemma_mul_is_associative(tt, total, before);
    lemma_mul_is_commutative(tt, total);
    lemma_mul_is_associative(total, tt, before);
    assert(total * after == total * (tt * before));
    lemma_mul_equality_converse(total, after, tt * before);
}

/// The numerators of the two bodies differ by a multiple of the total mass,
/// so the total mass divides both or neither.
pub proof fn lemma_numerators_congruent(m1: int, v1: int, m2: int, v2: int)
    ensures
        rebound_numerator(m2, v2, m1, v1) - rebound_numerator(m1, v1, m2, v2) == (m1 + m2) * (v1
            - v2),
{
    lemma_mul_is_distributive_sub_other_way(v1, m1, m2);
    lemma_mul_is_distributive_sub_other_way(v2, m2, m1);
    lemma_mul_is_associative(2, m2, v2);
    lemma_mul_is_associative(2, m1, v1);
    lemma_mul_is_distributive_sub(m1 + m2, v1, v2);
    lemma_mul_is_distributive_add_other_way(v1, m1, m2);
    lemma_mul_is_distributive_add_other_way(v2, m1, m2);
}

/// How far the square of a dividend exceeds the square of its truncated
/// quotient times the divisor.
pub proof fn lemma_square_gap(n: int, d: int)
    requires
        d > 0,
    ensures
        0 <= n * n - (trunc_div(n, d) * d) * (trunc_div(n, d) * d) <= (d * d) * (2 * magnitude(
            trunc_div(n, d),
        ) + 1),
        n % d == 0 ==> n * n == (trunc_div(n, d) * d) * (trunc_div(n, d) * d),
{
    let q = trunc_div(n, d);
    let p = q * d;
    let r = n - p;
    lemma_trunc_div(n, d);
    assert(n * n - p * p == r * (2 * p + r)) by (nonlinear_arith)
        requires
            r == n - p,
    ;
    if n >= 0 {
        assert(0 <= r * (2 * p + r) <= (d * d) * (2 * q + 1)) by (nonlinear_arith)
            requires
                0 <= r < d,
                p == q * d,
                q >= 0,
                d > 0,
        ;
    } else {
        assert(0 <= r * (2 * p + r) <= (d * d) * (2 * (-q) + 1)) by (nonlinear_arith)
            requires
                -d < r <= 0,
                p == q * d,
                q <= 0,
                d > 0,
        ;
    }
}

/// If the total mass divides one numerator of the elastic law, it divides
/// the other.
pub proof fn lemma_numerators_divide_together(m1: int, v1: int, m2: int, v2: int)
    requires
        m1 + m2 > 0,
    ensures
        rebound_numerator(m2, v2, m1, v1) % (m1 + m2) == rebound_numerator(m1, v1, m2, v2) % (m1
            + m2),
{
    lemma_numerators_congruent(m1, v1, m2, v2);
    lemma_mod_multiples_vanish(v1 - v2, rebound_numerator(m1, v1, m2, v2), m1 + m2);
}

/// A body-to-body collision changes the momentum of the pair by less than
/// one velocity unit per unit of mass, and not at all when the law's quotient
/// is exact.
pub proof fn law_momentum_within_tolerance(m1: int, v1: int, m2: int, v2: int)
    requires
        m1 > 0,
        m2 > 0,
    ensures
        magnitude(
            pair_momentum(m1, rebound(m1, v1, m2, v2), m2, rebound(m2, v2, m1, v1)) - pair_momentum(
                m1,
                v1,
                m2,
                v2,
            ),
        ) < m1 + m2,
        rebound_numerator(m1, v1, m2, v2) % (m1 + m2) == 0 ==> pair_momentum(
            m1,
            rebound(m1, v1, m2, v2),
            m2,
            rebound(m2, v2, m1, v1),
        ) == pair_momentum(m1, v1, m2, v2),
{
    let total = m1 + m2;
    let n1 = rebound_numerator(m1, v1, m2, v2);
    let n2 = rebound_numerator(m2, v2, m1, v1);
    let w1 = rebound(m1, v1, m2, v2);
    let w2 = rebound(m2, v2, m1, v1);
    let r1 = n1 - w1 * total;
    let r2 = n2 - w2 * total;
    let before = pair_momentum(m1, v1, m2, v2);
    let after = pair_momentum(m1, w1, m2, w2);
    let slack = m1 * r1 + m2 * r2;
    lemma_trunc_div(n1, total);
    lemma_trunc_div(n2, total);
    lemma_momentum_identity(m1, v1, m2, v2);
    // total * before == total * after + slack
    lemma_mul_is_distributive_add(m1, w1 * total, r1);
    lemma_mul_is_distributive_add(m2, w2 * total, r2);
    lemma_mul_is_associative(m1, w1, total);
    lemma_mul_is_associative(m2, w2, total);
    lemma_mul_is_commutative(m1 * w1, total);
    lemma_mul_is_commutative(m2 * w2, total);
    lemma_mul_is_distributive_add(total, m1 * w1, m2 * w2);
    assert(total * before == total * after + slack);
    lemma_mul_is_distributive_sub(total, before, after);
    assert(total * (before - after) == slack);
    // -total * total < slack < total * total
    lemma_mul_left_inequality(m1, r1, total);
    lemma_mul_left_inequality(m2, r2, total);
    lemma_mul_left_inequality(m1, -total, r1);
    lemma_mul_left_inequality(m2, -total, r2);
    lemma_mul_unary_negation(m1, total);
    lemma_mul_unary_negation(m2, total);
    lemma_mul_is_distributive_add_other_way(total, m1, m2);
    assert(-(total * total) < slack < total * total);
    lemma_mul_is_commutative(total, before - after);
    lemma_mul_strict_inequality_converse(before - after, total, total);
    lemma_mul_is_distributive_sub(total, after, before);
    lemma_mul_is_commutative(total, after - before);
    lemma_mul_strict_inequality_converse(after - before, total, total);
    if n1 % total == 0 {
        lemma_numerators_divide_together(m1, v1, m2, v2);
        assert(r1 == 0 && r2 == 0);
        assert(m1 * 0 == 0 && m2 * 0 == 0 && total * 0 == 0);
        lemma_mul_equality_converse(total, before - after, 0);
    }
}

/// A body-to-body collision never adds kinetic energy; what rounding takes
/// away is bounded by the new speeds, and is nothing when the law's quotient
/// is exact.
pub proof fn law_energy_within_tolerance(m1: int, v1: int, m2: int, v2: int)
    requires
        m1 > 0,
        m2 > 0,
    ensures
        0 <= pair_energy(m1, v1, m2, v2) - pair_energy(
            m1,
            rebound(m1, v1, m2, v2),
            m2,
            rebound(m2, v2, m1, v1),
        ) <= m1 * (2 * magnitude(rebound(m1, v1, m2, v2)) + 1) + m2 * (2 * magnitude(
            rebound(m2, v2, m1, v1),
        ) + 1),
        rebound_numerator(m1, v1, m2, v2) % (m1 + m2) == 0 ==> pair_energy(
            m1,
            rebound(m1, v1, m2, v2),
            m2,
            rebound(m2, v2, m1, v1),
        ) == pair_energy(m1, v1, m2, v2),
{
    let total = m1 + m2;
    let tt = total * total;
    let n1 = rebound_numerator(m1, v1, m2, v2);
    let n2 = rebound_numerator(m2, v2, m1, v1);
    let w1 = rebound(m1, v1, m2, v2);
    let w2 = rebound(m2, v2, m1, v1);
    let g1 = n1 * n1 - (w1 * total) * (w1 * total);
    let g2 = n2 * n2 - (w2 * total) * (w2 * total);
    let t1 = 2 * magnitude(w1) + 1;
    let t2 = 2 * magnitude(w2) + 1;
    let before = pair_energy(m1, v1, m2, v2);
    let after = pair_energy(m1, w1, m2, w2);
    lemma_square_gap(n1, total);
    lemma_square_gap(n2, total);
    lemma_energy_identity(m1, v1, m2, v2);
    assert(tt * before == m1 * (n1 * n1) + m2 * (n2 * n2));
    // tt * after == m1 * (w1 total)^2 + m2 * (w2 total)^2
    lemma_product_of_products(w1, total, w1, total);
    lemma_product_of_products(w2, total, w2, total);
    lemma_mul_is_associative(m1, w1 * w1, tt);
    lemma_mul_is_associative(m2, w2 * w2, tt);
    lemma_mul_is_commutative(m1 * (w1 * w1), tt);
    lemma_mul_is_commutative(m2 * (w2 * w2), tt);
    lemma_mul_is_distributive_add(tt, m1 * (w1 * w1), m2 * (w2 * w2));
    assert(tt * after == m1 * ((w1 * total) * (w1 * total)) + m2 * ((w2 * total) * (w2 * total)));
    lemma_mul_is_distributive_sub(m1, n1 * n1, (w1 * total) * (w1 * total));
    lemma_mul_is_distributive_sub(m2, n2 * n2, (w2 * total) * (w2 * total));
    lemma_mul_is_distributive_sub(tt, before, after);
    assert(tt * (before - after) == m1 * g1 + m2 * g2);
    // 0 <= m_i * g_i <= tt * (m_i * t_i)
    lemma_mul_nonnegative(m1, g1);
    lemma_mul_nonnegative(m2, g2);
    lemma_mul_left_inequality(m1, g1, tt * t1);
    lemma_mul_left_inequality(m2, g2, tt * t2);
    lemma_mul_is_associative(m1, tt, t1);
    lemma_mul_is_commutative(m1, tt);
    lemma_mul_is_associative(tt, m1, t1);
    lemma_mul_is_associative(m2, tt, t2);
    lemma_mul_is_commutative(m2, tt);
    lemma_mul_is_associative(tt, m2, t2);
    lemma_mul_is_distributive_add(tt, m1 * t1, m2 * t2);
    let bound = m1 * t1 + m2 * t2;
    assert(0 <= tt * (before - after) <= tt * bound);
    assert(tt > 0) by {
        lemma_mul_strictly_positive(total, total);
    }
    assert(tt * 0 == 0);
    lemma_mul_is_commutative(tt, before - after);
    lemma_mul_is_commutative(tt, bound);
    lemma_mul_is_commutative(tt, 0);
    lemma_mul_inequality_converse(0, before - after, tt);
    lemma_mul_inequality_converse(before - after, bound, tt);
    if n1 % total == 0 {
        lemma_numerators_divide_together(m1, v1, m2, v2);
        assert(g1 == 0 && g2 == 0);
        assert(m1 * 0 == 0 && m2 * 0 == 0);
        lemma_mul_equality_converse(tt, before - after, 0);
    }
}

/// Bodies of equal mass exchange their velocities exactly.
pub proof fn law_equal_masses_exchange(m: int, v1: int, v2: int)
    requires
        m > 0,
    ensures
        rebound(m, v1, m, v2) == v2,
        rebound(m, v2, m, v1) == v1,
{
    lemma_equal_mass_rebound(m, v1, v2);
    lemma_equal_mass_rebound(m, v2, v1);
}

proof fn lemma_equal_mass_rebound(m: int, v1: int, v2: int)
    requires
        m > 0,
    ensures
        rebound(m, v1, m, v2) == v2,
{
    let d = m + m;
    let n = rebound_numerator(m, v1, m, v2);
    assert((m - m) * v1 == 0);
    lemma_mul_is_associative(2, m, v2);
    assert(n == d * v2);
    if n >= 0 {
        lemma_div_multiples_vanish(v2, d);
    } else {
        lemma_mul_unary_negation(d, v2);
        lemma_div_multiples_vanish(-v2, d);
    }
}

/// An ideal reflection flips the sign of the velocity, keeps its magnitude
/// and the kinetic energy, and leaves the leading edge on the wall.
pub proof fn law_reflection(body: BodyState, wall: int, side: WallSide)
    ensures
        body.bounced(wall, side).velocity == -body.velocity,
        magnitude(body.bounced(wall, side).velocity) == magnitude(body.velocity),
        body.bounced(wall, side).doubled_energy() == body.doubled_energy(),
        body.bounced(wall, side).leading_edge(side) == wall,
        body.bounced(wall, side).mass == body.mass,
        body.bounced(wall, side).half_extent == body.half_extent,
{
    lemma_mul_cancels_negatives(body.velocity, body.velocity);
}

} // verus!
