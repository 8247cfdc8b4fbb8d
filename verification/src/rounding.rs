//! Rounding to the nearest binary64 number.
//!
//! Every finite binary64 number that is not negative is a whole multiple of the
//! smallest one, 2 to the power -1074. A quotient of whole numbers of such units
//! rounds to the pattern whose number is nearest; of two that are equally near,
//! the one with an even pattern is taken. Infinity takes part as if it were the
//! number after the largest one.

use vstd::prelude::*;

use crate::binary64::INFINITY_BITS;
use crate::powers::{lemma_twos_add, lemma_twos_grow, twos};

verus! {

/// Patterns with the same exponent: 2 to the power 52.
pub const BINADE: u64 = 0x10_0000_0000_0000;

/// The number with a pattern, in units of 2 to the power -1074.
pub open spec fn units(bits: int) -> nat {
    let exponent = bits / BINADE as int;
    let fraction = bits % BINADE as int;
    if exponent == 0 {
        fraction as nat
    } else {
        ((BINADE + fraction) * twos((exponent - 1) as nat)) as nat
    }
}

/// Whether the quotient of two numbers of units, `num / den`, rounds to a pattern:
/// it lies between the midpoints to the neighbours, or on one with an even pattern.
pub open spec fn rounds_to(num: nat, den: nat, bits: int) -> bool {
    &&& 0 <= bits <= INFINITY_BITS
    &&& bits > 0 ==> {
        let below = den * (units(bits - 1) + units(bits));
        2 * num > below || (2 * num == below && bits % 2 == 0)
    }
    &&& bits < INFINITY_BITS ==> {
        let above = den * (units(bits) + units(bits + 1));
        2 * num < above || (2 * num == above && bits % 2 == 0)
    }
}

/// The pattern that the quotient of two numbers of units rounds to.
pub open spec fn nearest(num: nat, den: nat) -> int {
    choose|bits: int| rounds_to(num, den, bits)
}

/// A pattern of an exponent and a significand.
pub proof fn lemma_units_form(k: nat, q: int)
    requires
        0 <= q <= 2 * BINADE,
        k == 0 || q >= BINADE,
    ensures
        units(k * BINADE + q) == q * twos(k),
{
    let b = k * BINADE + q;
    if q < BINADE {
        assert(b / BINADE as int == 0);
        assert(q * 1 == q);
    } else if q < 2 * BINADE {
        assert(b / BINADE as int == k + 1);
        assert(b % BINADE as int == q - BINADE);
    } else {
        assert(b / BINADE as int == k + 2);
        assert(b % BINADE as int == 0);
        assert(twos(k + 1) == 2 * twos(k));
        assert(BINADE * (2 * twos(k)) == (2 * BINADE) * twos(k)) by (nonlinear_arith);
    }
}

/// A larger pattern is a larger number.
pub proof fn lemma_units_step(bits: int)
    requires
        0 <= bits,
    ensures
        units(bits) < units(bits + 1),
{
    let e = bits / BINADE as int;
    let f = bits % BINADE as int;
    if f < BINADE - 1 {
        assert((bits + 1) / BINADE as int == e);
        assert((bits + 1) % BINADE as int == f + 1);
        if e > 0 {
            let t = twos((e - 1) as nat) as int;
            lemma_twos_grow(0, (e - 1) as nat);
            assert((BINADE + f) * t < (BINADE + (f + 1)) * t) by (nonlinear_arith)
                requires
                    t >= 1,
            ;
            assert((BINADE + f) * t >= 0) by (nonlinear_arith)
                requires
                    t >= 1,
                    f >= 0,
            ;
        }
    } else {
        assert((bits + 1) / BINADE as int == e + 1);
        assert((bits + 1) % BINADE as int == 0);
        if e > 0 {
            let t = twos((e - 1) as nat) as int;
            lemma_twos_grow(0, (e - 1) as nat);
            assert(twos(e as nat) == 2 * t);
            assert((BINADE + f) * t < (BINADE + 0) * (2 * t)) by (nonlinear_arith)
                requires
                    t >= 1,
                    f == BINADE - 1,
            ;
            assert((BINADE + f) * t >= 0) by (nonlinear_arith)
                requires
                    t >= 1,
                    f >= 0,
            ;
        } else {
            assert(twos(0) == 1);
        }
    }
}

/// Patterns are in the order of their numbers.
pub proof fn lemma_units_grow(a: int, b: int)
    requires
        0 <= a <= b,
    ensures
        units(a) <= units(b),
        a < b ==> units(a) < units(b),
    decreases b - a,
{
    if a < b {
        lemma_units_grow(a, b - 1);
        lemma_units_step(b - 1);
    }
}

proof fn lemma_rounds_no_higher(low: nat, high: nat, den: nat, a: int, b: int)
    requires
        den > 0,
        low <= high,
        rounds_to(high, den, a),
        rounds_to(low, den, b),
    ensures
        b <= a,
{
    if a < b {
        lemma_units_grow(a, b - 1);
        lemma_units_grow(a + 1, b);
        let left = units(a) + units(a + 1);
        let right = units(b - 1) + units(b);
        if a + 1 < b {
            assert(den * left < den * right) by (nonlinear_arith)
                requires
                    den > 0,
                    left < right,
            ;
        }
    }
}

/// A quotient rounds to one pattern only.
pub proof fn lemma_rounds_once(num: nat, den: nat, a: int, b: int)
    requires
        den > 0,
        rounds_to(num, den, a),
        rounds_to(num, den, b),
    ensures
        a == b,
{
    lemma_rounds_no_higher(num, num, den, a, b);
    lemma_rounds_no_higher(num, num, den, b, a);
}

/// Rounding keeps order.
pub proof fn lemma_nearest_in_order(low: nat, high: nat, den: nat)
    requires
        den > 0,
        low <= high,
    ensures
        0 <= nearest(low, den) <= nearest(high, den) <= INFINITY_BITS,
{
    lemma_rounds(low, den);
    lemma_rounds(high, den);
    lemma_rounds_no_higher(low, high, den, nearest(high, den), nearest(low, den));
}

/// From a pattern that a quotient is not below, some pattern is found to round to.
proof fn lemma_rounds_from(num: nat, den: nat, bits: int)
    requires
        0 <= bits <= INFINITY_BITS,
        bits > 0 ==> {
            let below = den * (units(bits - 1) + units(bits));
            2 * num > below || (2 * num == below && bits % 2 == 0)
        },
    ensures
        rounds_to(num, den, nearest(num, den)),
    decreases INFINITY_BITS - bits,
{
    if !rounds_to(num, den, bits) {
        lemma_rounds_from(num, den, bits + 1);
    }
}

/// Every quotient rounds to some pattern.
pub proof fn lemma_rounds(num: nat, den: nat)
    ensures
        rounds_to(num, den, nearest(num, den)),
{
    lemma_rounds_from(num, den, 0);
}

/// The pattern that a quotient rounds to is its nearest one.
pub proof fn lemma_nearest(num: nat, den: nat, bits: int)
    requires
        den > 0,
        rounds_to(num, den, bits),
    ensures
        nearest(num, den) == bits,
{
    lemma_rounds_once(num, den, nearest(num, den), bits);
}

// ---------------------------------------------------------------------
// Computing the nearest pattern
// ---------------------------------------------------------------------

/// Exponents are shifted by this much to stay natural numbers.
pub open spec fn bias() -> nat {
    4096
}

/// Whether `num / den` is `m` times 2 to the power `e`, and with `sticky` something
/// more, but less than one more.
pub open spec fn brackets(m: int, e: int, sticky: bool, num: nat, den: nat) -> bool {
    let y = num * twos(bias());
    let w = den * twos((e + bias()) as nat);
    if sticky {
        m * w < y < (m + 1) * w
    } else {
        y == m * w
    }
}

/// Whether `num / den` is no further than half a step of 2 to the power `k` from `q`
/// such steps.
spec fn near_step(num: nat, den: nat, k: nat, q: int) -> bool {
    let y = num * twos(bias());
    let z = den * twos(k + bias());
    &&& 2 * y < (2 * q + 1) * z || (2 * y == (2 * q + 1) * z && q % 2 == 0)
    &&& q > 0 ==> 2 * y > (2 * q - 1) * z || (2 * y == (2 * q - 1) * z && q % 2 == 0)
    &&& k > 0 && q == BINADE ==> y >= q * z
}

/// A quotient that is no further than half a step from `q` steps of 2 to the power
/// `k` rounds to the pattern of `q` and `k`.
proof fn lemma_rounds_to_step(num: nat, den: nat, k: nat, q: int)
    requires
        den > 0,
        0 <= q <= 2 * BINADE,
        k == 0 || q >= BINADE,
        k <= 2045,
        near_step(num, den, k, q),
    ensures
        rounds_to(num, den, k * BINADE + q),
{
    let b = k * BINADE + q;
    let c = twos(bias()) as int;
    let kk = twos(k) as int;
    let y = num * c;
    let d = den * kk;
    let z = den * twos(k + bias());
    lemma_twos_add(k, bias());
    lemma_twos_grow(0, bias());
    lemma_twos_grow(0, k);
    assert(z == d * c) by (nonlinear_arith)
        requires
            z == den * (kk * c),
            d == den * kk,
    ;
    assert(d > 0) by (nonlinear_arith)
        requires
            d == den * kk,
            den > 0,
            kk >= 1,
    ;
    assert((2 * q + 1) * z == ((2 * q + 1) * d) * c) by (nonlinear_arith)
        requires
            z == d * c,
    ;
    assert((2 * q - 1) * z == ((2 * q - 1) * d) * c) by (nonlinear_arith)
        requires
            z == d * c,
    ;
    assert(2 * y == (2 * num) * c) by (nonlinear_arith)
        requires
            y == num * c,
    ;
    lemma_cancel(2 * num as int, (2 * q + 1) * d, c);
    lemma_cancel((2 * q - 1) * d, 2 * num as int, c);
    lemma_units_form(k, q);
    assert(b % 2 == q % 2);
    assert(b <= 2045 * BINADE + 2 * BINADE);
    assert(2047 * BINADE == INFINITY_BITS);
    if b < INFINITY_BITS {
        if q < 2 * BINADE {
            lemma_units_form(k, q + 1);
            assert(units(b + 1) == (q + 1) * kk);
        } else {
            lemma_units_form(k + 1, BINADE + 1);
            assert((k + 1) * BINADE + (BINADE + 1) == b + 1);
            assert((BINADE + 1) * (2 * kk) >= (q + 1) * kk) by (nonlinear_arith)
                requires
                    q == 2 * BINADE,
                    kk >= 1,
            ;
        }
        assert(den * (units(b) + units(b + 1)) >= (2 * q + 1) * d) by (nonlinear_arith)
            requires
                units(b) == q * kk,
                units(b + 1) >= (q + 1) * kk,
                d == den * kk,
                den > 0,
        ;
    }
    if b > 0 {
        if k == 0 || q > BINADE {
            lemma_units_form(k, q - 1);
            assert(den * (units(b - 1) + units(b)) == (2 * q - 1) * d) by (nonlinear_arith)
                requires
                    units(b) == q * kk,
                    units(b - 1) == (q - 1) * kk,
                    d == den * kk,
            ;
        } else {
            lemma_units_step(b - 1);
            assert(q * z == (q * d) * c) by (nonlinear_arith)
                requires
                    z == d * c,
            ;
            lemma_cancel(q * d, num as int, c);
            assert(den * (units(b - 1) + units(b)) < 2 * num) by (nonlinear_arith)
                requires
                    units(b - 1) < units(b),
                    units(b) == q * kk,
                    d == den * kk,
                    q * d <= num,
                    den > 0,
            ;
        }
    }
}

/// A positive factor does not change how two numbers compare.
proof fn lemma_cancel(a: int, b: int, c: int)
    requires
        c > 0,
    ensures
        a * c < b * c <==> a < b,
        a * c == b * c <==> a == b,
{
    assert(a * c < b * c <==> a < b) by (nonlinear_arith)
        requires
            c > 0,
    ;
    assert(a * c == b * c <==> a == b) by (nonlinear_arith)
        requires
            c > 0,
    ;
}

/// 2 to the power `n`.
pub(crate) fn power_of_two(n: u32) -> (r: u128)
    requires
        n <= 120,
    ensures
        r == twos(n as nat),
        r >= 1,
{
    let mut r: u128 = 1;
    let mut i: u32 = 0;
    assert(twos(120) == 0x100_0000_0000_0000_0000_0000_0000_0000) by {
        lemma_twos_120();
    }
    while i < n
        invariant
            i <= n <= 120,
            r == twos(i as nat),
            r >= 1,
            twos(120) == 0x100_0000_0000_0000_0000_0000_0000_0000,
        decreases n - i,
    {
        proof {
            lemma_twos_grow((i + 1) as nat, 120);
            assert(twos((i + 1) as nat) == 2 * twos(i as nat));
        }
        r = r * 2;
        i += 1;
    }
    r
}

pub(crate) proof fn lemma_twos_120()
    ensures
        twos(120) == 0x100_0000_0000_0000_0000_0000_0000_0000,
        twos(52) == BINADE,
        twos(53) == 2 * BINADE,
        twos(60) == 0x1000_0000_0000_0000,
        twos(64) == 0x1_0000_0000_0000_0000,
{
    assert(twos(20) == 0x10_0000) by {
        reveal_with_fuel(twos, 21);
    }
    assert(twos(12) == 0x1000) by {
        reveal_with_fuel(twos, 13);
    }
    lemma_twos_product(20, 20, 0x10_0000, 0x10_0000);
    lemma_twos_product(40, 20, 0x100_0000_0000, 0x10_0000);
    lemma_twos_product(60, 60, 0x1000_0000_0000_0000, 0x1000_0000_0000_0000);
    lemma_twos_product(40, 12, 0x100_0000_0000, 0x1000);
    lemma_twos_product(52, 12, BINADE as nat, 0x1000);
    assert(twos(53) == 2 * twos(52));
}

pub(crate) proof fn lemma_twos_32()
    ensures
        twos(32) == 0x1_0000_0000,
{
    reveal_with_fuel(twos, 33);
}

proof fn lemma_twos_product(a: nat, b: nat, x: nat, y: nat)
    requires
        twos(a) == x,
        twos(b) == y,
    ensures
        twos(a + b) == x * y,
{
    lemma_twos_add(a, b);
}

/// Number of binary digits of a number.
pub(crate) fn bit_length(m: u128) -> (r: u32)
    requires
        0 < m < twos(120),
    ensures
        1 <= r <= 120,
        twos((r - 1) as nat) <= m < twos(r as nat),
{
    let mut r: u32 = 1;
    let mut p: u128 = 2;
    proof {
        reveal_with_fuel(twos, 2);
        lemma_twos_120();
    }
    while p <= m
        invariant
            1 <= r <= 120,
            p == twos(r as nat),
            twos((r - 1) as nat) <= m < twos(120),
            twos(120) == 0x100_0000_0000_0000_0000_0000_0000_0000,
        decreases 120 - r,
    {
        proof {
            assert(r < 120);
            assert(twos((r + 1) as nat) == 2 * twos(r as nat));
        }
        p = p * 2;
        r += 1;
    }
    r
}

/// How a remainder of `rem` in `p` rounds a quotient of `q0`, with something more
/// where `sticky`: up beyond half, and at half to the even quotient.
spec fn rounds_up(q0: int, rem: int, p: int, sticky: bool) -> bool {
    2 * rem > p || (2 * rem == p && (sticky || q0 % 2 == 1))
}

/// The nearest whole number of steps, from a quotient, its remainder and what was
/// left out of it.
proof fn lemma_nearest_step(
    m: int,
    w: int,
    y: int,
    sticky: bool,
    p: int,
    q0: int,
    rem: int,
    q: int,
)
    requires
        w > 0,
        p >= 2,
        p % 2 == 0,
        m == q0 * p + rem,
        0 <= rem < p,
        0 <= q0,
        if sticky {
            m * w < y < (m + 1) * w
        } else {
            y == m * w
        },
        q == if rounds_up(q0, rem, p, sticky) {
            q0 + 1
        } else {
            q0
        },
    ensures
        ({
            let z = p * w;
            &&& 2 * y < (2 * q + 1) * z || (2 * y == (2 * q + 1) * z && q % 2 == 0)
            &&& q > 0 ==> 2 * y > (2 * q - 1) * z || (2 * y == (2 * q - 1) * z && q % 2 == 0)
            &&& y >= q0 * z
        }),
{
    let z = p * w;
    let middle = q0 * p * 2 + p;
    assert((2 * q0 + 1) * z == middle * w) by (nonlinear_arith)
        requires
            z == p * w,
            middle == q0 * p * 2 + p,
    ;
    assert((2 * q0 + 3) * z == (middle + 2 * p) * w) by (nonlinear_arith)
        requires
            z == p * w,
            middle == q0 * p * 2 + p,
    ;
    assert((2 * q0 - 1) * z == (middle - 2 * p) * w) by (nonlinear_arith)
        requires
            z == p * w,
            middle == q0 * p * 2 + p,
    ;
    assert(q0 * z == (q0 * p) * w) by (nonlinear_arith)
        requires
            z == p * w,
    ;
    assert(2 * (m * w) == (2 * m) * w) by (nonlinear_arith);
    assert(2 * ((m + 1) * w) == (2 * m + 2) * w) by (nonlinear_arith);
    assert((m + 1) * w == m * w + w) by (nonlinear_arith);
    assert((q0 * p) * w <= m * w) by (nonlinear_arith)
        requires
            q0 * p <= m,
            w > 0,
    ;
    assert(2 * m == middle - p + 2 * rem);
    if 2 * rem > p {
        assert(2 * rem >= p + 2);
        assert((2 * m) * w >= (middle + 2) * w) by (nonlinear_arith)
            requires
                2 * m >= middle + 2,
                w > 0,
        ;
        assert((middle + 2) * w == middle * w + 2 * w) by (nonlinear_arith);
        assert((2 * m + 2) * w <= (middle + 2 * p) * w) by (nonlinear_arith)
            requires
                2 * m + 2 <= middle + 2 * p,
                w > 0,
        ;
    } else if 2 * rem == p {
        assert((2 * m) * w == middle * w);
        assert((2 * m + 2) * w <= (middle + 2 * p) * w) by (nonlinear_arith)
            requires
                2 * m + 2 <= middle + 2 * p,
                w > 0,
        ;
        assert((middle + 2 * p) * w > middle * w) by (nonlinear_arith)
            requires
                p > 0,
                w > 0,
        ;
    } else {
        assert(2 * rem <= p - 2);
        assert((2 * m + 2) * w <= middle * w) by (nonlinear_arith)
            requires
                2 * m + 2 <= middle,
                w > 0,
        ;
        assert((2 * m) * w < (2 * m + 2) * w) by (nonlinear_arith)
            requires
                w > 0,
        ;
    }
    assert((middle - 2 * p) * w < (2 * m) * w) by (nonlinear_arith)
        requires
            middle - 2 * p < 2 * m,
            w > 0,
    ;
}

/// The pattern nearest to `num / den`, which is `m` times 2 to the power `e`, and
/// with `sticky` something more, but less than one more.
pub(crate) fn round_scaled(
    m: u128,
    e: i32,
    sticky: bool,
    Ghost(num): Ghost<nat>,
    Ghost(den): Ghost<nat>,
) -> (r: u64)
    requires
        den > 0,
        0 < m < twos(120),
        -4000 <= e <= 4000,
        brackets(m as int, e as int, sticky, num, den),
        sticky ==> m >= twos(54),
    ensures
        rounds_to(num, den, r as int),
{
    let len: u32 = bit_length(m);
    let reach: i32 = len as i32 + e - 53;
    let k: u32 = if reach > 0 {
        reach as u32
    } else {
        0
    };
    let ghost y = num * twos(bias());
    let ghost w = (den * twos((e + bias()) as nat)) as int;
    proof {
        lemma_twos_120();
        lemma_twos_grow(0, (e + bias()) as nat);
        assert(w > 0) by (nonlinear_arith)
            requires
                w == den * twos((e + bias()) as nat),
                den > 0,
                twos((e + bias()) as nat) >= 1,
        ;
    }
    if k >= 2046 {
        proof {
            lemma_beyond(m as int, e as int, len as int, sticky, num, den);
        }
        return INFINITY_BITS;
    }
    let q: u64 = if e >= k as i32 {
        let s: u32 = (e - k as i32) as u32;
        proof {
            if sticky {
                lemma_twos_grow(len as nat, 54);
            }
            lemma_twos_add(s as nat, (len - 1) as nat);
            lemma_twos_add(s as nat, len as nat);
            lemma_twos_grow((s + len) as nat, 53);
            assert(m * twos(s as nat) <= twos((s + len) as nat)) by (nonlinear_arith)
                requires
                    m <= twos(len as nat),
                    twos((s + len) as nat) == twos(s as nat) * twos(len as nat),
            ;
            assert(m * twos(s as nat) >= twos((s + len - 1) as nat)) by (nonlinear_arith)
                requires
                    m >= twos((len - 1) as nat),
                    twos((s + len - 1) as nat) == twos(s as nat) * twos((len - 1) as nat),
            ;
            lemma_shift(m as int, s as nat, k as nat, e as int, den);
            lemma_exact_step(num, den, k as nat, m * twos(s as nat));
        }
        (m * power_of_two(s)) as u64
    } else {
        let t: u32 = (k as i32 - e) as u32;
        if t > 120 {
            proof {
                lemma_tiny(m as int, e as int, sticky, num, den, k as nat, t as nat, len as nat);
                assert(1 * (den * twos(k as nat + bias())) == den * twos(k as nat + bias()));
                assert(near_step(num, den, k as nat, 0));
            }
            0
        } else {
            let p: u128 = power_of_two(t);
            let q0: u128 = m / p;
            let rem: u128 = m % p;
            let half: u128 = p / 2;
            let up: bool = rem > half || (rem == half && (sticky || q0 % 2 == 1));
            let q: u128 = if up {
                q0 + 1
            } else {
                q0
            };
            proof {
                assert(twos(t as nat) == 2 * twos((t - 1) as nat));
                vstd::arithmetic::div_mod::lemma_fundamental_div_mod(m as int, p as int);
                assert(m == q0 * p + rem) by (nonlinear_arith)
                    requires
                        m == p * q0 + rem,
                ;
                lemma_nearest_step(
                    m as int,
                    w,
                    y as int,
                    sticky,
                    p as int,
                    q0 as int,
                    rem as int,
                    q as int,
                );
                lemma_quotient_size(m as int, len as nat, t as nat, q0 as int, k as nat, e as int);
                lemma_step_size(den, e as int, k as nat, t as nat);
                assert(near_step(num, den, k as nat, q as int));
            }
            q as u64
        }
    };
    let bits: u64 = k as u64 * BINADE + q;
    proof {
        lemma_rounds_to_step(num, den, k as nat, q as int);
    }
    bits
}

/// A quotient of a whole number of steps is near to them.
proof fn lemma_exact_step(num: nat, den: nat, k: nat, q: int)
    requires
        den > 0,
        q >= 0,
        num * twos(bias()) == q * (den * twos(k + bias())),
    ensures
        near_step(num, den, k, q),
{
    let z = (den * twos(k + bias())) as int;
    lemma_twos_grow(0, k + bias());
    assert(z > 0) by (nonlinear_arith)
        requires
            z == den * twos(k + bias()),
            den > 0,
            twos(k + bias()) >= 1,
    ;
    assert((2 * q + 1) * z == 2 * (q * z) + z) by (nonlinear_arith);
    assert((2 * q - 1) * z == 2 * (q * z) - z) by (nonlinear_arith);
}

/// A step of 2 to the power `k` is `t` doublings of one of 2 to the power `e`.
proof fn lemma_step_size(den: nat, e: int, k: nat, t: nat)
    requires
        t == k - e,
        -4000 <= e,
    ensures
        den * twos(k + bias()) == twos(t) * (den * twos((e + bias()) as nat)),
{
    lemma_twos_add(t, (e + bias()) as nat);
    let a = twos(t);
    let b = twos((e + bias()) as nat);
    assert(den * (a * b) == a * (den * b)) by (nonlinear_arith);
}

/// Shifting left is exact.
proof fn lemma_shift(m: int, s: nat, k: nat, e: int, den: nat)
    requires
        e == k + s,
    ensures
        m * (den * twos((e + bias()) as nat)) == (m * twos(s)) * (den * twos(k + bias())),
{
    lemma_twos_add(s, k + bias());
    let a = twos(s);
    let b = twos(k + bias());
    assert(s + (k + bias()) == (e + bias()) as nat);
    assert(m * (den * (a * b)) == (m * a) * (den * b)) by (nonlinear_arith);
}

/// The quotient of a number by a power of two keeps the binary digits that are not
/// cut off.
proof fn lemma_quotient_size(m: int, len: nat, t: nat, q0: int, k: nat, e: int)
    requires
        1 <= len,
        1 <= t,
        twos((len - 1) as nat) <= m < twos(len),
        q0 == m / twos(t) as int,
        t == k - e,
        k == 0 ==> len + e <= 53,
        k > 0 ==> k == len + e - 53,
    ensures
        0 <= q0 < 2 * BINADE,
        k > 0 ==> q0 >= BINADE,
{
    lemma_twos_120();
    let p = twos(t) as int;
    lemma_twos_grow(0, t);
    vstd::arithmetic::div_mod::lemma_fundamental_div_mod(m, p);
    vstd::arithmetic::div_mod::lemma_div_pos_is_pos(m, p);
    if len <= t + 53 {
        lemma_twos_add(t, 53);
        lemma_twos_grow(len, t + 53);
        assert(q0 < twos(53)) by (nonlinear_arith)
            requires
                m < p * twos(53),
                m == p * q0 + m % p,
                m % p >= 0,
                p > 0,
        ;
    }
    if k > 0 {
        lemma_twos_add(t, 52);
        assert(twos((len - 1) as nat) == twos(t + 52));
        assert(q0 >= twos(52)) by (nonlinear_arith)
            requires
                m >= p * twos(52),
                m == p * q0 + m % p,
                m % p < p,
                p > 0,
        ;
    }
}

/// What is below half a unit rounds to zero.
proof fn lemma_tiny(
    m: int,
    e: int,
    sticky: bool,
    num: nat,
    den: nat,
    k: nat,
    t: nat,
    len: nat,
)
    requires
        den > 0,
        0 < m < twos(120),
        -4000 <= e,
        brackets(m, e, sticky, num, den),
        1 <= len <= 120,
        twos((len - 1) as nat) <= m < twos(len),
        k > 0 ==> k == len + e - 53,
        t == k - e,
        t > 120,
    ensures
        k == 0,
        2 * (num * twos(bias())) < den * twos(k + bias()),
{
    let w = (den * twos((e + bias()) as nat)) as int;
    let y = num * twos(bias());
    lemma_step_size(den, e, k, t);
    lemma_twos_grow(0, (e + bias()) as nat);
    lemma_twos_grow(121, t);
    assert(twos(121) == 2 * twos(120));
    assert(w > 0) by (nonlinear_arith)
        requires
            w == den * twos((e + bias()) as nat),
            den > 0,
            twos((e + bias()) as nat) >= 1,
    ;
    assert((m + 1) * w == m * w + w) by (nonlinear_arith);
    assert(2 * ((m + 1) * w) <= twos(t) * w) by (nonlinear_arith)
        requires
            2 * (m + 1) <= twos(t),
            w > 0,
    ;
}

/// What is at least 2 to the power 2098 units rounds to infinity.
proof fn lemma_beyond(m: int, e: int, len: int, sticky: bool, num: nat, den: nat)
    requires
        den > 0,
        0 < m,
        -4000 <= e <= 4000,
        1 <= len <= 120,
        twos((len - 1) as nat) <= m,
        len + e - 53 >= 2046,
        brackets(m, e, sticky, num, den),
    ensures
        rounds_to(num, den, INFINITY_BITS as int),
{
    let b = INFINITY_BITS as int;
    let c = twos(bias()) as int;
    let y = num * c;
    let w = (den * twos((e + bias()) as nat)) as int;
    lemma_twos_120();
    lemma_units_form(2046, BINADE as int);
    assert(2046 * BINADE + BINADE == INFINITY_BITS);
    lemma_units_step(b - 1);
    lemma_twos_add(52, 2046);
    assert(units(b) == twos(2098));
    lemma_twos_add(2098, bias());
    lemma_twos_grow(0, bias());
    lemma_twos_grow(2098 + bias(), (len - 1 + e + bias()) as nat);
    lemma_twos_add((len - 1) as nat, (e + bias()) as nat);
    assert((len - 1) as nat + (e + bias()) as nat == (len - 1 + e + bias()) as nat);
    let t = twos((e + bias()) as nat) as int;
    let l = twos((len - 1) as nat) as int;
    lemma_twos_grow(0, (e + bias()) as nat);
    assert(m * w >= den * (l * t)) by (nonlinear_arith)
        requires
            m >= l,
            w == den * t,
            den > 0,
            t >= 1,
    ;
    assert(den * (l * t) >= den * (twos(2098) * c)) by (nonlinear_arith)
        requires
            l * t >= twos(2098) * c,
            den > 0,
    ;
    assert(den * (twos(2098) * c) == (den * twos(2098)) * c) by (nonlinear_arith);
    assert(y >= (den * twos(2098)) * c);
    lemma_cancel(num as int, (den * twos(2098)) as int, c);
    assert(num >= den * twos(2098));
    assert(den * (units(b - 1) + units(b)) < 2 * num) by (nonlinear_arith)
        requires
            units(b - 1) < units(b),
            num >= den * units(b),
            den > 0,
    ;
}

} // verus!
