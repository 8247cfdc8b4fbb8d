//! What binary64 numbers stand for, and how the arithmetic treats whole numbers.

use vstd::prelude::*;

use crate::arithmetic::one_units;
use crate::binary64::{Binary64, INFINITY_BITS, ONE_BITS, SIGN_BIT};
use crate::bounds::{lemma_count_is_exact, lemma_power_units, lemma_same_quotient};
use crate::powers::lemma_twos_grow;
use crate::rounding::{lemma_nearest, lemma_twos_120, lemma_units_grow, rounds_to, units};

verus! {

/// The number of units in a number, negative below zero.
pub open spec fn signed_units(x: Binary64) -> int {
    if x.bits >= SIGN_BIT {
        -(units(x.bits - SIGN_BIT) as int)
    } else {
        units(x.bits as int) as int
    }
}

/// Numbers are compared by their values: one is below another, or at most another, exactly
/// where its value is. A pattern that is not a number is in no order.
pub proof fn law_order_is_that_of_values(a: Binary64, b: Binary64)
    ensures
        !a.is_nan_spec() && !b.is_nan_spec() ==> {
            &&& a.below(b) <==> signed_units(a) < signed_units(b)
            &&& a.at_most(b) <==> signed_units(a) <= signed_units(b)
        },
        a.is_nan_spec() || b.is_nan_spec() ==> !a.below(b) && !a.at_most(b),
{
    let ma = a.magnitude();
    let mb = b.magnitude();
    assert(units(0) == 0);
    lemma_units_grow(0, ma);
    lemma_units_grow(0, mb);
    if ma <= mb {
        lemma_units_grow(ma, mb);
    } else {
        lemma_units_grow(mb, ma);
    }
}

/// The numbers 0 and 1 are what their names say, and a count with no more than 53 binary
/// digits is that many times 1.
pub proof fn law_counts_are_their_values(n: u64)
    requires
        n < 0x20_0000_0000_0000,
    ensures
        Binary64::zero_spec().in_units() == 0,
        Binary64::one_spec().in_units() == one_units(),
        Binary64::of_count(n).in_units() == n * Binary64::one_spec().in_units(),
        Binary64::of_count(0) == Binary64::zero_spec(),
        Binary64::of_count(1) == Binary64::one_spec(),
{
    let one = one_units();
    lemma_twos_120();
    lemma_power_units(0);
    lemma_count_is_exact(n, 52);
    lemma_count_is_exact(0, 52);
    lemma_count_is_exact(1, 52);
    assert(units(0) == 0);
    assert(0 * one == 0);
    assert(1 * one == one);
    let zero = Binary64::of_count(0).bits as int;
    if zero > 0 {
        lemma_units_grow(0, zero);
    }
    let unit = Binary64::of_count(1).bits as int;
    if unit > ONE_BITS {
        lemma_units_grow(ONE_BITS as int, unit);
    }
    if unit < ONE_BITS {
        lemma_units_grow(unit, ONE_BITS as int);
    }
}

/// Dividing by 1, multiplying by 1 and adding 0 change no number.
pub proof fn law_neutral_numbers(x: Binary64)
    requires
        x.bits < INFINITY_BITS,
    ensures
        x.over(Binary64::one_spec()) == x,
        x.times(Binary64::one_spec()) == x,
        x.plus(Binary64::zero_spec()) == x,
{
    let one = one_units();
    let u = x.in_units();
    let b = x.bits as int;
    lemma_twos_grow(0, 1074);
    lemma_power_units(0);
    assert(units(0) == 0);
    lemma_units_grow(b, b + 1);
    if b > 0 {
        lemma_units_grow(b - 1, b);
    }
    assert(rounds_to(u, 1, b));
    lemma_nearest(u, 1, b);
    lemma_same_quotient(u, one);
}

/// Counts multiply and divide as whole numbers do, as long as they have no more than 53
/// binary digits.
pub proof fn law_counts_multiply(a: u64, b: u64, product: u64)
    requires
        a * b == product,
        a < 0x20_0000_0000_0000,
        0 < b < 0x20_0000_0000_0000,
        product < 0x20_0000_0000_0000,
    ensures
        Binary64::of_count(a).times(Binary64::of_count(b)) == Binary64::of_count(product),
        Binary64::of_count(product).over(Binary64::of_count(b)) == Binary64::of_count(a),
{
    let one = one_units();
    lemma_twos_120();
    lemma_twos_grow(0, 1074);
    lemma_count_is_exact(a, 52);
    lemma_count_is_exact(b, 52);
    lemma_count_is_exact(product, 52);
    assert((a * one) * (b * one) == (product * one) * one) by (nonlinear_arith)
        requires
            a * b == product,
    ;
    lemma_same_quotient(product as nat * one, one);
    assert((product * one) * one == (a * one) * (b * one));
    assert(b * one > 0) by (nonlinear_arith)
        requires
            b > 0,
            one > 0,
    ;
    lemma_same_quotient(a as nat * one, b as nat * one);
}

} // verus!
