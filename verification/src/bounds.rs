//! Bounds on results of binary64 arithmetic.
//!
//! Rounding keeps order, so a result whose exact value is between two binary64
//! numbers is between them too.

use vstd::prelude::*;

use crate::arithmetic::{held_count, one_units, rounded};
use crate::binary64::{Binary64, INFINITY_BITS, ONE_BITS};
use crate::powers::{lemma_twos_add, lemma_twos_grow, twos};
use crate::rounding::{
    lemma_nearest, lemma_nearest_in_order, lemma_rounds, lemma_twos_120, lemma_twos_32,
    lemma_units_form, lemma_units_grow, nearest, rounds_to, units, BINADE,
};

verus! {

/// The pattern of 2 to the power `n`.
pub open spec fn power_bits(n: int) -> int {
    (n + 1023) * BINADE
}

/// A power of two in units.
pub proof fn lemma_power_units(n: int)
    requires
        -1022 <= n <= 1023,
    ensures
        units(power_bits(n)) == twos((n + 1074) as nat),
        0 < power_bits(n) < INFINITY_BITS,
{
    lemma_twos_120();
    lemma_units_form((n + 1022) as nat, BINADE as int);
    assert((n + 1022) * BINADE + BINADE == power_bits(n));
    lemma_twos_add(52, (n + 1022) as nat);
}

/// A quotient that is at most a number rounds to at most that number.
pub proof fn lemma_at_most(num: nat, den: nat, b: int)
    requires
        den > 0,
        0 <= b,
        num <= den * units(b),
    ensures
        0 <= nearest(num, den) <= b,
        nearest(num, den) <= INFINITY_BITS,
{
    let r = nearest(num, den);
    lemma_rounds(num, den);
    if r > b {
        lemma_units_grow(b, r - 1);
        lemma_units_grow(b, r);
        assert(den * (units(r - 1) + units(r)) > 2 * num) by (nonlinear_arith)
            requires
                units(r - 1) >= units(b),
                units(r) > units(b),
                num <= den * units(b),
                den > 0,
        ;
    }
}

/// A quotient that is at least a number rounds to at least that number.
pub proof fn lemma_at_least(num: nat, den: nat, b: int)
    requires
        den > 0,
        0 <= b <= INFINITY_BITS,
        num >= den * units(b),
    ensures
        b <= nearest(num, den) <= INFINITY_BITS,
{
    let r = nearest(num, den);
    lemma_rounds(num, den);
    if r < b {
        lemma_units_grow(r, b);
        lemma_units_grow(r + 1, b);
        assert(den * (units(r) + units(r + 1)) < 2 * num) by (nonlinear_arith)
            requires
                units(r) < units(b),
                units(r + 1) <= units(b),
                num >= den * units(b),
                den > 0,
        ;
    }
}

/// What a quotient rounds to is a number, or infinity.
pub proof fn lemma_rounded_is_number(num: nat, den: nat)
    ensures
        rounded(num, den).bits <= INFINITY_BITS,
{
    lemma_rounds(num, den);
}

/// A count up to a power of two is at most that power.
pub proof fn lemma_count_at_most(n: u64, k: nat)
    requires
        n <= twos(k),
        k <= 64,
    ensures
        Binary64::of_count(n).bits <= power_bits(k as int) < INFINITY_BITS,
{
    let one = one_units();
    let num = n as nat * one;
    lemma_power_units(k as int);
    lemma_twos_add(k, 1074);
    assert(num <= twos(k) * one) by (nonlinear_arith)
        requires
            num == n as nat * one,
            n <= twos(k),
    ;
    lemma_at_most(num, 1, power_bits(k as int));
}

/// A count that is not 0 is at least 1, and no count is above 2 to the power 64.
pub proof fn lemma_count_range(n: u64)
    ensures
        Binary64::of_count(n).bits <= power_bits(64) < INFINITY_BITS,
        n > 0 ==> Binary64::of_count(n).bits >= ONE_BITS,
{
    let one = one_units();
    let num = n as nat * one;
    lemma_twos_120();
    lemma_count_at_most(n, 64);
    if n > 0 {
        lemma_power_units(0);
        assert(num >= one) by (nonlinear_arith)
            requires
                num == n as nat * one,
                n >= 1,
        ;
        lemma_at_least(num, 1, power_bits(0));
    }
}

/// A product is at most the product of the powers of two above its parts.
pub proof fn lemma_product_at_most(x: Binary64, y: Binary64, b: int, d: int)
    requires
        x.bits <= power_bits(b),
        y.bits <= power_bits(d),
        -1022 <= b <= 1023,
        -1022 <= d <= 1023,
        -1022 <= b + d <= 1023,
    ensures
        x.times(y).bits <= power_bits(b + d),
{
    let u = x.in_units();
    let v = y.in_units();
    lemma_power_units(b);
    lemma_power_units(d);
    lemma_power_units(b + d);
    lemma_units_grow(x.bits as int, power_bits(b));
    lemma_units_grow(y.bits as int, power_bits(d));
    lemma_twos_add((b + 1074) as nat, (d + 1074) as nat);
    lemma_twos_add(1074, (b + d + 1074) as nat);
    lemma_twos_grow(0, 1074);
    let hb = twos((b + 1074) as nat);
    let hd = twos((d + 1074) as nat);
    assert(u * v <= hb * hd) by (nonlinear_arith)
        requires
            u <= hb,
            v <= hd,
    ;
    lemma_at_most(u * v, one_units(), power_bits(b + d));
}

/// A product is at least the product of the powers of two below its parts.
pub proof fn lemma_product_at_least(x: Binary64, y: Binary64, a: int, c: int)
    requires
        power_bits(a) <= x.bits <= INFINITY_BITS,
        power_bits(c) <= y.bits <= INFINITY_BITS,
        -1022 <= a <= 1023,
        -1022 <= c <= 1023,
        -1022 <= a + c <= 1023,
    ensures
        power_bits(a + c) <= x.times(y).bits <= INFINITY_BITS,
{
    let u = x.in_units();
    let v = y.in_units();
    lemma_power_units(a);
    lemma_power_units(c);
    lemma_power_units(a + c);
    lemma_units_grow(power_bits(a), x.bits as int);
    lemma_units_grow(power_bits(c), y.bits as int);
    lemma_twos_add((a + 1074) as nat, (c + 1074) as nat);
    lemma_twos_add(1074, (a + c + 1074) as nat);
    lemma_twos_grow(0, 1074);
    let la = twos((a + 1074) as nat);
    let lc = twos((c + 1074) as nat);
    assert(la * lc <= u * v) by (nonlinear_arith)
        requires
            la <= u,
            lc <= v,
    ;
    lemma_at_least(u * v, one_units(), power_bits(a + c));
}

/// A quotient is at most the quotient of the powers of two around its parts.
pub proof fn lemma_quotient_at_most(x: Binary64, y: Binary64, b: int, c: int)
    requires
        x.bits <= power_bits(b),
        power_bits(c) <= y.bits <= INFINITY_BITS,
        -1022 <= b <= 1023,
        -1022 <= c <= 1023,
        -1022 <= b - c <= 1023,
    ensures
        x.over(y).bits <= power_bits(b - c),
{
    let one = one_units();
    let u = x.in_units();
    let v = y.in_units();
    lemma_power_units(b);
    lemma_power_units(c);
    lemma_power_units(b - c);
    lemma_units_grow(x.bits as int, power_bits(b));
    lemma_units_grow(power_bits(c), y.bits as int);
    lemma_twos_grow(0, (c + 1074) as nat);
    lemma_twos_add((b + 1074) as nat, 1074);
    lemma_twos_add((c + 1074) as nat, (b - c + 1074) as nat);
    let hb = twos((b + 1074) as nat);
    let lc = twos((c + 1074) as nat);
    let high = twos((b - c + 1074) as nat);
    assert(u * one <= v * high) by (nonlinear_arith)
        requires
            u <= hb,
            lc <= v,
            hb * one == lc * high,
    ;
    lemma_at_most(u * one, v, power_bits(b - c));
}

/// A quotient is at least the quotient of the powers of two around its parts.
pub proof fn lemma_quotient_at_least(x: Binary64, y: Binary64, a: int, d: int)
    requires
        power_bits(a) <= x.bits <= INFINITY_BITS,
        0 < y.bits <= power_bits(d),
        -1022 <= a <= 1023,
        -1022 <= d <= 1023,
        -1022 <= a - d <= 1023,
    ensures
        power_bits(a - d) <= x.over(y).bits <= INFINITY_BITS,
{
    let one = one_units();
    let u = x.in_units();
    let v = y.in_units();
    lemma_power_units(a);
    lemma_power_units(d);
    lemma_power_units(a - d);
    lemma_units_grow(power_bits(a), x.bits as int);
    lemma_units_grow(0, y.bits as int);
    lemma_units_grow(y.bits as int, power_bits(d));
    lemma_twos_add((a + 1074) as nat, 1074);
    lemma_twos_add((d + 1074) as nat, (a - d + 1074) as nat);
    let la = twos((a + 1074) as nat);
    let hd = twos((d + 1074) as nat);
    let low = twos((a - d + 1074) as nat);
    assert(v * low <= u * one) by (nonlinear_arith)
        requires
            la <= u,
            v <= hd,
            la * one == hd * low,
    ;
    lemma_at_least(u * one, v, power_bits(a - d));
}

/// Infinity divided by a number up to 1 is infinity.
pub proof fn lemma_infinite_over(y: Binary64)
    requires
        0 < y.bits <= ONE_BITS,
    ensures
        (Binary64 { bits: INFINITY_BITS }).over(y).bits == INFINITY_BITS,
{
    let one = one_units();
    let top = units(INFINITY_BITS as int);
    let v = y.in_units();
    lemma_power_units(0);
    lemma_units_grow(0, y.bits as int);
    lemma_units_grow(y.bits as int, ONE_BITS as int);
    assert(top * one >= v * top) by (nonlinear_arith)
        requires
            v <= one,
    ;
    lemma_at_least(top * one, v, INFINITY_BITS as int);
}

/// A sum of two numbers is at least as large as each of them, and at most twice the
/// larger one.
pub proof fn lemma_sum_range(x: Binary64, y: Binary64, b: int)
    requires
        x.bits <= power_bits(b),
        y.bits <= power_bits(b),
        -1022 <= b <= 1022,
    ensures
        x.bits <= x.plus(y).bits <= power_bits(b + 1),
        y.bits <= x.plus(y).bits,
{
    let n = x.in_units() + y.in_units();
    lemma_power_units(b);
    lemma_power_units(b + 1);
    lemma_units_grow(x.bits as int, power_bits(b));
    lemma_units_grow(y.bits as int, power_bits(b));
    assert(twos((b + 1 + 1074) as nat) == 2 * twos((b + 1074) as nat));
    lemma_at_least(n, 1, x.bits as int);
    lemma_at_least(n, 1, y.bits as int);
    lemma_at_most(n, 1, power_bits(b + 1));
}

/// Adding 1 or less to a number up to 2 to the power 54 stays there.
pub proof fn lemma_total_stays(total: Binary64, x: Binary64)
    requires
        total.bits <= power_bits(54),
        x.bits <= ONE_BITS,
    ensures
        total.plus(x).bits <= power_bits(54),
{
    let b = power_bits(54);
    let one = one_units();
    let n = total.in_units() + x.in_units();
    let r = nearest(n, 1);
    lemma_rounds(n, 1);
    lemma_power_units(54);
    lemma_power_units(0);
    lemma_units_grow(total.bits as int, b);
    lemma_units_grow(x.bits as int, power_bits(0));
    if r > b {
        lemma_units_grow(b, r - 1);
        lemma_units_grow(b + 1, r);
        lemma_twos_120();
        lemma_units_form(1076, BINADE + 1);
        assert(1076 * BINADE + BINADE + 1 == b + 1);
        lemma_twos_add(52, 1076);
        assert((BINADE + 1) * twos(1076) == BINADE * twos(1076) + twos(1076)) by (nonlinear_arith);
        assert(twos(1076) == 2 * twos(1075));
        assert(twos(1075) == 2 * one);
        lemma_twos_grow(0, 1074);
    }
}

/// A count with no more than 53 binary digits is held exactly.
pub proof fn lemma_count_is_exact(n: u64, k: nat)
    requires
        n < twos(k + 1),
        k <= 52,
    ensures
        Binary64::of_count(n).in_units() == n * one_units(),
        Binary64::of_count(n).bits < INFINITY_BITS,
    decreases k,
{
    let one = one_units();
    let num = n as nat * one;
    if n >= twos(k) {
        lemma_twos_120();
        lemma_twos_grow(0, (52 - k) as nat);
        lemma_twos_add(k, (52 - k) as nat);
        lemma_twos_add(k + 1, (52 - k) as nat);
        lemma_twos_add((52 - k) as nat, k + 1022);
        let scale = twos((52 - k) as nat);
        let q = n * scale;
        assert(twos(k) * scale <= q < twos(k + 1) * scale) by (nonlinear_arith)
            requires
                q == n * scale,
                twos(k) <= n < twos(k + 1),
                scale >= 1,
        ;
        let p = (k + 1022) * BINADE + q;
        lemma_units_form(k + 1022, q);
        assert(q * twos(k + 1022) == n * (scale * twos(k + 1022))) by (nonlinear_arith)
            requires
                q == n * scale,
        ;
        lemma_units_grow(p - 1, p);
        lemma_units_grow(p, p + 1);
        assert(rounds_to(num, 1, p));
        lemma_nearest(num, 1, p);
    } else if k > 0 {
        lemma_count_is_exact(n, (k - 1) as nat);
    } else {
        assert(twos(0) == 1);
        assert(0 * one == 0);
        assert(units(0) == 0);
        lemma_at_most(num, 1, 0);
    }
}

/// A number that is not subnormal is at least 2 to the power 52, and less than twice
/// that, times its distance to the next number.
proof fn lemma_gap(b: int)
    requires
        b >= BINADE,
    ensures
        ({
            let gap = units(b + 1) - units(b);
            BINADE * gap <= units(b) < 2 * BINADE * gap
        }),
{
    let e = b / BINADE as int - 1;
    let q = BINADE + b % BINADE as int;
    let t = twos(e as nat) as int;
    lemma_twos_grow(0, e as nat);
    assert(b == e * BINADE + q);
    lemma_units_form(e as nat, q);
    lemma_units_form(e as nat, q + 1);
    assert((q + 1) * t == q * t + t) by (nonlinear_arith);
    assert(BINADE * t <= q * t < 2 * BINADE * t) by (nonlinear_arith)
        requires
            BINADE <= q < 2 * BINADE,
            t >= 1,
    ;
}

/// What a quotient rounds to, if it is not subnormal, differs from it by at most one
/// part in 2 to the power 53.
proof fn lemma_close(num: nat, den: nat)
    requires
        den > 0,
        BINADE <= nearest(num, den) < INFINITY_BITS,
    ensures
        ({
            let near = den * units(nearest(num, den));
            (2 * BINADE - 1) * near <= 2 * BINADE * num <= (2 * BINADE + 1) * near
        }),
{
    let r = nearest(num, den);
    let u = units(r) as int;
    lemma_rounds(num, den);
    lemma_gap(r);
    let up = units(r + 1) - u;
    let down = u - units(r - 1);
    if r > BINADE {
        lemma_gap(r - 1);
    } else {
        lemma_units_form(0, r - 1);
        lemma_units_form(0, r);
        assert(twos(0) == 1);
    }
    lemma_units_grow(r - 1, r);
    assert(2 * BINADE * num <= (2 * BINADE + 1) * (den * u)) by (nonlinear_arith)
        requires
            2 * num <= den * (u + (u + up)),
            BINADE * up <= u,
            den > 0,
    ;
    assert((2 * BINADE - 1) * (den * u) <= 2 * BINADE * num) by (nonlinear_arith)
        requires
            2 * num >= den * ((u - down) + u),
            BINADE * down <= u,
            den > 0,
    ;
}

/// What a whole number of units rounds to differs from it by at most one part in 2 to
/// the power 53.
proof fn lemma_close_whole(num: nat)
    requires
        nearest(num, 1) < INFINITY_BITS,
    ensures
        ({
            let near = units(nearest(num, 1));
            (2 * BINADE - 1) * near <= 2 * BINADE * num <= (2 * BINADE + 1) * near
        }),
{
    let r = nearest(num, 1);
    lemma_rounds(num, 1);
    if r >= BINADE {
        lemma_close(num, 1);
    } else {
        lemma_units_form(0, r);
        lemma_units_form(0, r + 1);
        if r > 0 {
            lemma_units_form(0, r - 1);
        }
        assert(twos(0) == 1);
        assert(r * 1 == r);
        assert((r + 1) * 1 == r + 1);
        assert((r - 1) * 1 == r - 1);
        assert(num == r);
    }
}

/// A quotient rounds as it does when both its parts are multiplied by a number.
pub proof fn lemma_same_quotient(num: nat, c: nat)
    requires
        c > 0,
    ensures
        nearest(num * c, c) == nearest(num, 1),
{
    let r = nearest(num, 1);
    lemma_rounds(num, 1);
    if r > 0 {
        let below = units(r - 1) + units(r);
        assert(2 * (num * c) > c * below <==> 2 * num > below) by (nonlinear_arith)
            requires
                c > 0,
        ;
        assert(2 * (num * c) == c * below <==> 2 * num == below) by (nonlinear_arith)
            requires
                c > 0,
        ;
    }
    if r < INFINITY_BITS {
        let above = units(r) + units(r + 1);
        assert(2 * (num * c) < c * above <==> 2 * num < above) by (nonlinear_arith)
            requires
                c > 0,
        ;
        assert(2 * (num * c) == c * above <==> 2 * num == above) by (nonlinear_arith)
            requires
                c > 0,
        ;
    }
    assert(rounds_to(num * c, c, r));
    lemma_nearest(num * c, c, r);
}

/// A product with a count is close to the product of a number that is not larger.
#[verifier::rlimit(40)]
proof fn lemma_load_is_close(x: Binary64, y: Binary64, n: u32)
    requires
        0 < y.bits <= x.bits < INFINITY_BITS,
        y.bits <= ONE_BITS,
        n > 0,
    ensures
        ({
            let load = x.times(Binary64::of_count(n as u64));
            (2 * BINADE + 1) * load.in_units() >= 2 * BINADE * (y.in_units() * n)
        }),
{
    let one = one_units();
    let u = x.in_units();
    let v = y.in_units();
    let count = n as nat;
    lemma_twos_32();
    lemma_twos_grow(0, 1074);
    lemma_twos_grow(32, 53);
    lemma_count_is_exact(n as u64, 52);
    lemma_units_grow(y.bits as int, x.bits as int);
    lemma_units_grow(y.bits as int, ONE_BITS as int);
    lemma_power_units(0);
    lemma_power_units(32);
    lemma_twos_add(32, 1074);
    assert(u * (count * one) == (u * count) * one) by (nonlinear_arith);
    lemma_same_quotient(u * count, one);
    assert(v * count <= u * count) by (nonlinear_arith)
        requires
            v <= u,
    ;
    assert(v * count <= twos(32) * one) by (nonlinear_arith)
        requires
            v <= one,
            count <= twos(32),
    ;
    lemma_nearest_in_order(v * count, u * count, 1);
    lemma_at_most(v * count, 1, power_bits(32));
    lemma_close_whole(v * count);
    let near = nearest(v * count, 1);
    let far = nearest(u * count, 1);
    lemma_units_grow(near, far);
    assert((2 * BINADE + 1) * units(far) >= (2 * BINADE + 1) * units(near)) by (nonlinear_arith)
        requires
            units(far) >= units(near),
    ;
}

/// Multiplying a number by a count and dividing by a number that is not larger gives
/// more than the count less 1.
#[verifier::rlimit(40)]
pub proof fn lemma_scaled_back(x: Binary64, y: Binary64, n: u32)
    requires
        0 < y.bits <= x.bits < INFINITY_BITS,
        y.bits <= ONE_BITS,
        n > 0,
    ensures
        x.times(Binary64::of_count(n as u64)).over(y).rounded_up() >= n,
{
    let one = one_units() as int;
    let count = Binary64::of_count(n as u64);
    let load = x.times(count);
    let v = y.in_units() as int;
    let b = count.bits - 1;
    lemma_twos_32();
    lemma_twos_grow(0, 1074);
    lemma_twos_grow(32, 53);
    lemma_count_is_exact(n as u64, 52);
    lemma_count_range(n as u64);
    lemma_units_grow(0, y.bits as int);
    lemma_units_grow(y.bits as int, x.bits as int);
    lemma_gap(b);
    let gap = units(b + 1) - units(b);
    let pred = units(b) as int;
    assert(gap < one) by (nonlinear_arith)
        requires
            BINADE * gap <= pred,
            pred + gap == n * one,
            n <= 0x1_0000_0000,
            one >= 1,
    ;
    lemma_units_grow(0, load.bits as int);
    let l = load.in_units() as int;
    lemma_load_is_close(x, y, n);
    assert(l * one >= v * pred) by (nonlinear_arith)
        requires
            (2 * BINADE + 1) * l >= 2 * BINADE * (v * n),
            pred < 2 * BINADE * gap,
            pred + gap == n * one,
            v > 0,
            one >= 1,
    ;
    lemma_at_least((l * one) as nat, v as nat, b);
    let r = load.over(y);
    lemma_units_grow(b, r.bits as int);
    let top = r.in_units() as int;
    assert(top + one - 1 >= n * one) by (nonlinear_arith)
        requires
            top >= pred,
            pred + gap == n * one,
            gap < one,
    ;
    vstd::arithmetic::div_mod::lemma_div_is_ordered(n * one, top + one - 1, one);
    vstd::arithmetic::div_mod::lemma_div_multiples_vanish(n as int, one);
    assert(one * n == n * one) by (nonlinear_arith);
}

/// Multiplying a number by a count, dividing by a number up to 1 and rounding up gives
/// the smallest count whose product with that number is not below the first product,
/// give or take two roundings.
#[verifier::rlimit(40)]
pub proof fn lemma_smallest_count(x: Binary64, y: Binary64, n: u32)
    requires
        0 < x.bits < INFINITY_BITS,
        0 < y.bits <= ONE_BITS,
        x.times(Binary64::of_count(n as u64)).over(y).bits < INFINITY_BITS,
    ensures
        ({
            let count = held_count(x.times(Binary64::of_count(n as u64)).over(y).rounded_up());
            let p = 2 * BINADE;
            let load = x.in_units() * n;
            &&& count < u32::MAX ==> p * p * load <= (p + 1) * (p + 1) * (count * y.in_units())
            &&& count > 1 ==> p * p * load > (p - 1) * (p - 1) * ((count - 1) * y.in_units())
        }),
{
    let one = one_units() as int;
    let p = 2 * BINADE as int;
    let wide = Binary64::of_count(n as u64);
    let load = x.times(wide);
    let q = load.over(y);
    let u = x.in_units() as int;
    let v = y.in_units() as int;
    let l = load.in_units() as int;
    let w = q.in_units() as int;
    let c = q.rounded_up();
    let count = held_count(c);
    let exact = u * n;
    lemma_twos_32();
    lemma_twos_grow(0, 1074);
    lemma_twos_grow(32, 53);
    lemma_count_is_exact(n as u64, 52);
    lemma_units_grow(0, y.bits as int);
    lemma_units_grow(y.bits as int, ONE_BITS as int);
    lemma_power_units(0);
    assert(u * (n * one) == exact * one) by (nonlinear_arith)
        requires
            exact == u * n,
    ;
    assert(exact >= 0) by (nonlinear_arith)
        requires
            exact == u * n,
            u >= 0,
    ;
    lemma_same_quotient(exact as nat, one as nat);
    lemma_rounds(exact as nat, 1);
    if load.bits == INFINITY_BITS {
        lemma_infinite_over(y);
    }
    lemma_close_whole(exact as nat);
    assert((p - 1) * l <= p * exact <= (p + 1) * l);
    lemma_rounds((l * one) as nat, v as nat);
    let n1 = w + one - 1;
    vstd::arithmetic::div_mod::lemma_fundamental_div_mod(n1, one);
    vstd::arithmetic::div_mod::lemma_mod_bound(n1, one);
    let m = n1 % one;
    assert(n1 == one * c + m);
    assert((c - 1) * one < w <= c * one) by (nonlinear_arith)
        requires
            w + one - 1 == one * c + m,
            0 <= m < one,
    ;
    if q.bits >= BINADE {
        lemma_close((l * one) as nat, v as nat);
        lemma_fits(p, exact, l, one, v, w, c);
        if c < count {
            lemma_scaled_order(p + 1, c, count, v);
        }
        if count < c {
            lemma_scaled_order(p - 1, count - 1, c - 1, v);
        }
    } else {
        lemma_twos_120();
        lemma_units_form(0, q.bits as int);
        lemma_units_form(0, q.bits + 1);
        lemma_twos_grow(53, 1074);
        assert(w < one);
        assert(c <= 1) by (nonlinear_arith)
            requires
                (c - 1) * one < w,
                w < one,
                one > 0,
        ;
        assert(l <= v) by (nonlinear_arith)
            requires
                2 * (l * one) <= v * (2 * w + 1),
                2 * w + 1 <= 2 * one,
                v > 0,
                one > 0,
        ;
        lemma_fits_one(p, exact, l, v);
    }
}

proof fn lemma_fits(p: int, exact: int, l: int, one: int, v: int, w: int, c: int)
    requires
        p > 1,
        one > 0,
        v > 0,
        l >= 0,
        (p - 1) * l <= p * exact <= (p + 1) * l,
        (p - 1) * (v * w) <= p * (l * one) <= (p + 1) * (v * w),
        (c - 1) * one < w <= c * one,
    ensures
        p * p * exact <= (p + 1) * (p + 1) * (c * v),
        p * p * exact > (p - 1) * (p - 1) * ((c - 1) * v),
{
    assert(p * l <= (p + 1) * (c * v)) by (nonlinear_arith)
        requires
            p * (l * one) <= (p + 1) * (v * w),
            w <= c * one,
            one > 0,
            v > 0,
            p > 1,
    ;
    assert(p * l > (p - 1) * ((c - 1) * v)) by (nonlinear_arith)
        requires
            p * (l * one) >= (p - 1) * (v * w),
            w > (c - 1) * one,
            one > 0,
            v > 0,
            p > 1,
    ;
    let a = c * v;
    let b = (c - 1) * v;
    assert(p * p * exact <= (p + 1) * (p + 1) * a) by (nonlinear_arith)
        requires
            p * exact <= (p + 1) * l,
            p * l <= (p + 1) * a,
            p > 1,
    ;
    assert(p * p * exact > (p - 1) * (p - 1) * b) by (nonlinear_arith)
        requires
            p * exact >= (p - 1) * l,
            p * l > (p - 1) * b,
            p > 1,
    ;
}

proof fn lemma_scaled_order(f: int, a: int, b: int, v: int)
    requires
        a <= b,
        v > 0,
    ensures
        f * f * (a * v) <= f * f * (b * v),
{
    assert(a * v <= b * v) by (nonlinear_arith)
        requires
            a <= b,
            v > 0,
    ;
    let x = a * v;
    let y = b * v;
    assert(f * f * x <= f * f * y) by (nonlinear_arith)
        requires
            x <= y,
    ;
}

proof fn lemma_fits_one(p: int, exact: int, l: int, v: int)
    requires
        p > 1,
        v > 0,
        l <= v,
        p * exact <= (p + 1) * l,
    ensures
        p * p * exact <= (p + 1) * (p + 1) * (1 * v),
{
    assert(p * p * exact <= (p + 1) * (p + 1) * v) by (nonlinear_arith)
        requires
            p * exact <= (p + 1) * l,
            l <= v,
            p > 1,
            v > 0,
    ;
}

} // verus!
