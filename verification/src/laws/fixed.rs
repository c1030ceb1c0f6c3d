//! Laws of the fixed-point numbers, in their units.
use crate::fixed::{magnitude, Fixed, SCALE};
use crate::scalar::{ratio_spec, zero_spec, Scalar};
use vstd::arithmetic::div_mod::lemma_fundamental_div_mod;
use vstd::arithmetic::mul::lemma_mul_is_commutative;
use vstd::prelude::*;

verus! {

/// A number of less than a billion, above or below zero. Prices, quantities and
/// rates are of that size, and their products and quotients fit the range.
pub open spec fn is_plain(x: Fixed) -> bool {
    -1_000_000_000_000_000_000 < x.units < 1_000_000_000_000_000_000
}

/// A number of less than a billion that is not below zero.
pub open spec fn is_amount(x: Fixed) -> bool {
    0 <= x.units < 1_000_000_000_000_000_000
}

/// An integer stands for so many units as make it.
pub proof fn integers_are_exact(n: i128)
    requires
        -1_000_000_000_000_000_000 < n < 1_000_000_000_000_000_000,
    ensures
        Fixed::of_int_spec(n).units == n * SCALE,
        zero_spec::<Fixed>().units == 0,
{
}

/// Sums and differences are exact.
pub proof fn sums_are_exact(a: Fixed, b: Fixed)
    requires
        is_plain(a),
        is_plain(b),
    ensures
        a.plus_spec(b).units == a.units + b.units,
        a.minus_spec(b).units == a.units - b.units,
{
}

/// Numbers are ordered as their units are.
pub proof fn order_is_that_of_units(a: Fixed, b: Fixed)
    ensures
        a.less_spec(b) <==> a.units < b.units,
        a.at_most_spec(b) <==> a.units <= b.units,
        a.least_spec(b).units <= a.units,
        a.least_spec(b).units <= b.units,
        a.least_spec(b) == a || a.least_spec(b) == b,
{
}

proof fn lemma_product_bound(a: int, b: int)
    requires
        -1_000_000_000_000_000_000 < a < 1_000_000_000_000_000_000,
        -1_000_000_000_000_000_000 < b < 1_000_000_000_000_000_000,
    ensures
        -1_000_000_000_000_000_000_000_000_000_000_000_000 < a * b
            < 1_000_000_000_000_000_000_000_000_000_000_000_000,
        a >= 0 && b >= 0 ==> a * b >= 0,
{
    let m = 1_000_000_000_000_000_000int;
    assert(a * b < m * m) by (nonlinear_arith)
        requires
            -m < a < m,
            -m < b < m,
    ;
    assert(-(m * m) < a * b) by (nonlinear_arith)
        requires
            -m < a < m,
            -m < b < m,
    ;
    assert(a >= 0 && b >= 0 ==> a * b >= 0) by (nonlinear_arith);
    assert(m * m == 1_000_000_000_000_000_000_000_000_000_000_000_000) by (nonlinear_arith)
        requires
            m == 1_000_000_000_000_000_000,
    ;
}

/// A product is the exact one, cut off towards zero by less than a unit.
pub proof fn products_are_cut_off(a: Fixed, b: Fixed)
    requires
        is_plain(a),
        is_plain(b),
    ensures
        magnitude(a.units * b.units - a.times_spec(b).units * SCALE) < SCALE,
        magnitude(a.times_spec(b).units * SCALE) <= magnitude(a.units * b.units),
        a.units >= 0 && b.units >= 0 ==> a.times_spec(b).units >= 0,
{
    lemma_product_bound(a.units as int, b.units as int);
}

/// A quotient is the exact one, cut off towards zero.
pub proof fn quotients_are_cut_off(a: Fixed, b: Fixed)
    requires
        -10_000_000_000_000_000_000_000_000_000 < a.units < 10_000_000_000_000_000_000_000_000_000,
        b.units != 0,
    ensures
        magnitude(a.units * SCALE - a.over_spec(b).units * b.units) < magnitude(b.units as int),
        magnitude(a.over_spec(b).units * b.units) <= magnitude(a.units * SCALE),
{
    let n = a.units * SCALE;
    let d = b.units as int;
    let x = magnitude(n) as int;
    let y = magnitude(d) as int;
    let q = x / y;
    lemma_fundamental_div_mod(x, y);
    lemma_mul_is_commutative(y, q);
    assert(0 <= x % y < y) by (nonlinear_arith)
        requires
            y > 0,
    ;
    assert(0 <= q <= x) by (nonlinear_arith)
        requires
            q == x / y,
            x >= 0,
            y > 0,
    ;
    let r = a.over_spec(b).units as int;
    assert(r == q || r == -q);
    assert(((-q) * d == -(q * d)) && (q * (-d) == -(q * d)) && ((-q) * (-d) == q * d)) by (nonlinear_arith);
    assert(q * y >= 0) by (nonlinear_arith)
        requires
            q >= 0,
            y >= 0,
    ;
}

/// A fraction of two integers is what its terms say.
pub proof fn fractions_are_cut_off(num: i128, den: i128)
    requires
        0 <= num < 1_000_000_000,
        0 < den < 1_000_000_000,
    ensures
        ratio_spec::<Fixed>(num, den).units * den <= num * SCALE,
        num * SCALE < (ratio_spec::<Fixed>(num, den).units + 1) * den,
{
    let a = Fixed::of_int_spec(num);
    let b = Fixed::of_int_spec(den);
    quotients_are_cut_off(a, b);
    let r = ratio_spec::<Fixed>(num, den).units as int;
    let n = num as int;
    let d = den as int;
    assert(r * (d * 1_000_000_000) == (r * d) * 1_000_000_000) by (nonlinear_arith);
    assert(r >= 0) by {
        assert((n * 1_000_000_000 * 1_000_000_000) / (d * 1_000_000_000) >= 0) by (nonlinear_arith)
            requires
                n >= 0,
                d > 0,
        ;
    }
    assert(r * d >= 0) by (nonlinear_arith)
        requires
            r >= 0,
            d > 0,
    ;
    assert((r + 1) * d == r * d + d) by (nonlinear_arith);
}

/// Rounding gives the nearest integer.
pub proof fn rounding_is_to_the_nearest(x: Fixed)
    requires
        -9_000_000_000_000_000_000 * SCALE < x.units < 9_000_000_000_000_000_000 * SCALE,
    ensures
        2 * magnitude(x.round_spec() * SCALE - x.units) <= SCALE,
{
}

} // verus!
