//! Laws relating the pair-math functions to one another.
//!
//! Each proof function here states a property of the exact mathematical
//! values `quote_spec`, `amount_out_spec` and `amount_in_spec`, which the
//! executable functions are proved to return whenever they succeed.  The
//! laws are stated over `int`, so they cover every representable input.

use vstd::arithmetic::div_mod::{
    lemma_div_is_ordered, lemma_div_multiples_vanish, lemma_div_pos_is_pos,
    lemma_fundamental_div_mod, lemma_mod_bound,
};
use vstd::arithmetic::mul::{
    lemma_mul_is_commutative, lemma_mul_nonnegative, lemma_mul_strictly_positive,
};
use vstd::prelude::*;

use crate::pair::{amount_in_spec, amount_out_spec, quote_spec};

verus! {

/// For fractions with positive denominators, a smaller or equal exact
/// value gives a smaller or equal floor: `n1/d1 <= n2/d2` follows from
/// `n1 * d2 <= n2 * d1`.
proof fn lemma_div_frac_le(n1: int, d1: int, n2: int, d2: int)
    requires
        0 <= n1,
        0 <= n2,
        0 < d1,
        0 < d2,
        n1 * d2 <= n2 * d1,
    ensures
        n1 / d1 <= n2 / d2,
{
    let q1 = n1 / d1;
    let r1 = n1 % d1;
    let q2 = n2 / d2;
    let r2 = n2 % d2;
    lemma_fundamental_div_mod(n1, d1);
    lemma_mod_bound(n1, d1);
    lemma_fundamental_div_mod(n2, d2);
    lemma_mod_bound(n2, d2);
    lemma_mul_strictly_positive(d1, d2);
    assert(q1 * (d1 * d2) <= n1 * d2) by (nonlinear_arith)
        requires
            n1 == d1 * q1 + r1,
            r1 >= 0,
            d2 > 0,
    ;
    assert(n2 * d1 < (q2 + 1) * (d1 * d2)) by (nonlinear_arith)
        requires
            n2 == d2 * q2 + r2,
            r2 < d2,
            d1 > 0,
    ;
    assert(q1 < q2 + 1) by (nonlinear_arith)
        requires
            q1 * (d1 * d2) < (q2 + 1) * (d1 * d2),
            d1 * d2 > 0,
    ;
}

/// Quoting back and forth loses at most the integer truncation: quoting
/// `a` from asset A to B and the result back from B to A never exceeds
/// `a`, and falls short of it by less than `ra / rb + 1`, stated here
/// over products to stay in integers.
pub proof fn lemma_quote_round_trip(a: int, ra: int, rb: int)
    requires
        a > 0,
        ra > 0,
        rb > 0,
    ensures
        quote_spec(quote_spec(a, ra, rb), rb, ra) <= a,
        a * rb < quote_spec(quote_spec(a, ra, rb), rb, ra) * rb + ra + rb,
{
    let q = quote_spec(a, ra, rb);
    let s = (a * rb) % ra;
    lemma_mul_strictly_positive(a, rb);
    lemma_fundamental_div_mod(a * rb, ra);
    lemma_mod_bound(a * rb, ra);
    assert(a * rb == ra * q + s);
    lemma_mul_is_commutative(ra, q);
    let back = quote_spec(q, rb, ra);
    let t = (q * ra) % rb;
    lemma_div_pos_is_pos(a * rb, ra);
    lemma_mul_nonnegative(q, ra);
    lemma_fundamental_div_mod(q * ra, rb);
    lemma_mod_bound(q * ra, rb);
    assert(q * ra == rb * back + t);
    lemma_mul_is_commutative(rb, back);
    // back * rb == a * rb - s - t, with 0 <= s < ra and 0 <= t < rb.
    assert(back * rb == a * rb - s - t);
    // Upper bound: back <= (a * rb) / rb == a.
    lemma_div_is_ordered(q * ra, a * rb, rb);
    lemma_mul_is_commutative(a, rb);
    lemma_div_multiples_vanish(a, rb);
}

/// For fixed reserves, the swap output never decreases when the input
/// grows, and the exact pre-floor output strictly increases, stated
/// here over products to stay in integers.  (After flooring, equal
/// outputs for distinct inputs are possible.)
pub proof fn lemma_amount_out_monotone(a1: int, a2: int, rin: int, rout: int)
    requires
        0 < a1 <= a2,
        rin > 0,
        rout > 0,
    ensures
        amount_out_spec(a1, rin, rout) <= amount_out_spec(a2, rin, rout),
        a1 < a2 ==> (a1 * 997 * rout) * (rin * 1000 + a2 * 997) < (a2 * 997 * rout) * (rin * 1000
            + a1 * 997),
{
    let n1 = a1 * 997 * rout;
    let d1 = rin * 1000 + a1 * 997;
    let n2 = a2 * 997 * rout;
    let d2 = rin * 1000 + a2 * 997;
    lemma_mul_nonnegative(a1 * 997, rout);
    lemma_mul_nonnegative(a2 * 997, rout);
    assert(n1 * d2 <= n2 * d1 && (a1 < a2 ==> n1 * d2 < n2 * d1)) by (nonlinear_arith)
        requires
            n1 == a1 * 997 * rout,
            d1 == rin * 1000 + a1 * 997,
            n2 == a2 * 997 * rout,
            d2 == rin * 1000 + a2 * 997,
            0 < a1 <= a2,
            rin > 0,
            rout > 0,
    ;
    lemma_div_frac_le(n1, d1, n2, d2);
}

/// For fixed reserves, the required swap input never decreases when the
/// requested output grows, and the exact pre-floor input strictly
/// increases, stated here over products to stay in integers.  (After
/// flooring, equal inputs for distinct outputs are possible.)
pub proof fn lemma_amount_in_monotone(y1: int, y2: int, rin: int, rout: int)
    requires
        0 < y1 <= y2 < rout,
        rin > 0,
    ensures
        amount_in_spec(y1, rin, rout) <= amount_in_spec(y2, rin, rout),
        y1 < y2 ==> (rin * y1 * 1000) * ((rout - y2) * 997) < (rin * y2 * 1000) * ((rout - y1)
            * 997),
{
    let n1 = rin * y1 * 1000;
    let d1 = (rout - y1) * 997;
    let n2 = rin * y2 * 1000;
    let d2 = (rout - y2) * 997;
    lemma_mul_nonnegative(rin * y1, 1000);
    lemma_mul_nonnegative(rin * y2, 1000);
    lemma_mul_strictly_positive(rout - y1, 997);
    lemma_mul_strictly_positive(rout - y2, 997);
    assert(n1 * d2 <= n2 * d1 && (y1 < y2 ==> n1 * d2 < n2 * d1)) by (nonlinear_arith)
        requires
            n1 == rin * y1 * 1000,
            d1 == (rout - y1) * 997,
            n2 == rin * y2 * 1000,
            d2 == (rout - y2) * 997,
            0 < y1 <= y2 < rout,
            rin > 0,
    ;
    lemma_div_frac_le(n1, d1, n2, d2);
}

/// The fee makes a swap pay out no more than the proportional quote:
/// `amount_out_spec` never exceeds `quote_spec` on the same arguments,
/// and the exact pre-floor values are strictly ordered, stated here over
/// products to stay in integers.  (After flooring, the two can coincide.)
pub proof fn lemma_fee_below_quote(a: int, rin: int, rout: int)
    requires
        a > 0,
        rin > 0,
        rout > 0,
    ensures
        amount_out_spec(a, rin, rout) <= quote_spec(a, rin, rout),
        (a * 997 * rout) * rin < (a * rout) * (rin * 1000 + a * 997),
{
    let n1 = a * 997 * rout;
    let d1 = rin * 1000 + a * 997;
    let n2 = a * rout;
    let d2 = rin;
    lemma_mul_nonnegative(a * 997, rout);
    lemma_mul_nonnegative(a, rout);
    assert(n1 * d2 < n2 * d1) by (nonlinear_arith)
        requires
            n1 == a * 997 * rout,
            d1 == rin * 1000 + a * 997,
            n2 == a * rout,
            d2 == rin,
            a > 0,
            rin > 0,
            rout > 0,
    ;
    lemma_div_frac_le(n1, d1, n2, d2);
}

/// Charging `amount_in_spec(y, rin, rout)` buys at least `y`: rounding
/// the required input up never under-pays for the requested output.
pub proof fn lemma_swap_round_trip(y: int, rin: int, rout: int)
    requires
        0 < y < rout,
        rin > 0,
    ensures
        amount_out_spec(amount_in_spec(y, rin, rout), rin, rout) >= y,
{
    let g = rin * y * 1000;
    let d = (rout - y) * 997;
    let q = g / d;
    let i = q + 1;
    lemma_mul_nonnegative(rin * y, 1000);
    lemma_mul_strictly_positive(rout - y, 997);
    let rem = g % d;
    lemma_fundamental_div_mod(g, d);
    lemma_mod_bound(g, d);
    lemma_div_pos_is_pos(g, d);
    // d * i exceeds g, since q is the floor of g / d.
    assert(d * i > g) by (nonlinear_arith)
        requires
            i == q + 1,
            g == d * q + rem,
            rem < d,
    ;
    // Hence the fee-adjusted input covers the requested output exactly:
    // i * 997 * rout >= y * (rin * 1000 + i * 997) + 1.
    let num = i * 997 * rout;
    let den = rin * 1000 + i * 997;
    assert(num >= y * den + 1) by (nonlinear_arith)
        requires
            num == i * 997 * rout,
            den == rin * 1000 + i * 997,
            d == (rout - y) * 997,
            g == rin * y * 1000,
            d * i > g,
            i > 0,
            0 < y < rout,
            rin > 0,
    ;
    lemma_mul_nonnegative(y, den);
    lemma_div_is_ordered(y * den, num, den);
    lemma_div_multiples_vanish(y, den);
    lemma_mul_is_commutative(y, den);
    assert(amount_in_spec(y, rin, rout) == i);
    assert(amount_out_spec(i, rin, rout) == num / den);
    assert(num / den >= (y * den) / den);
}

} // verus!
