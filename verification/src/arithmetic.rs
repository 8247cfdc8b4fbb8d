//! Arithmetic on binary64 numbers that are not negative.
//!
//! Each operation gives the binary64 number nearest to the exact result, as the
//! IEEE 754 operation of the same name does.

use vstd::prelude::*;

use crate::binary64::{Binary64, INFINITY_BITS};
use crate::bounds::{lemma_at_most, lemma_power_units, power_bits};
use crate::powers::{lemma_twos_add, lemma_twos_grow, twos};
use crate::rounding::{
    bit_length, brackets, lemma_nearest, lemma_twos_120, lemma_units_form, lemma_units_grow, bias,
    nearest, power_of_two, round_scaled, rounds_to, units, BINADE,
};

verus! {

/// The number of units in 1.
pub open spec fn one_units() -> nat {
    twos(1074)
}

/// The number nearest to a quotient of two numbers of units.
pub open spec fn rounded(num: nat, den: nat) -> Binary64 {
    Binary64 { bits: nearest(num, den) as u64 }
}

/// A quotient rounded up to a whole number.
pub open spec fn ceiling(num: nat, den: nat) -> int {
    (num + den - 1) / (den as int)
}

impl Binary64 {
    /// Whether the number is finite and its sign is not minus.
    pub open spec fn is_magnitude(self) -> bool {
        self.bits < INFINITY_BITS
    }

    /// The number in units of 2 to the power -1074.
    pub open spec fn in_units(self) -> nat {
        units(self.bits as int)
    }

    /// The number nearest to a count.
    pub open spec fn of_count(n: u64) -> Binary64 {
        rounded(n as nat * one_units(), 1)
    }

    /// The number nearest to a product.
    pub open spec fn times(self, other: Binary64) -> Binary64 {
        rounded(self.in_units() * other.in_units(), one_units())
    }

    /// The number nearest to a quotient.
    pub open spec fn over(self, other: Binary64) -> Binary64 {
        rounded(self.in_units() * one_units(), other.in_units())
    }

    /// The number nearest to a sum.
    pub open spec fn plus(self, other: Binary64) -> Binary64 {
        rounded(self.in_units() + other.in_units(), 1)
    }

    /// The number nearest to a difference.
    pub open spec fn minus(self, other: Binary64) -> Binary64 {
        rounded((self.in_units() - other.in_units()) as nat, 1)
    }

    /// The number without its fraction.
    pub open spec fn rounded_down(self) -> int {
        self.in_units() as int / one_units() as int
    }

    /// The whole number nearest to the number; of two that are equally near, the even
    /// one.
    pub open spec fn nearest_whole(self) -> int {
        let whole = self.rounded_down();
        let rest = self.in_units() as int % one_units() as int;
        if 2 * rest > one_units() || (2 * rest == one_units() && whole % 2 == 1) {
            whole + 1
        } else {
            whole
        }
    }

    /// The number rounded up to a whole number.
    pub open spec fn rounded_up(self) -> int {
        ceiling(self.in_units(), one_units())
    }
}

/// The significand and the exponent of a pattern.
fn parts(bits: u64) -> (r: (u64, u32))
    requires
        bits < INFINITY_BITS,
    ensures
        units(bits as int) == r.0 * twos(r.1 as nat),
        r.0 < 2 * BINADE,
        r.1 <= 2045,
        r.1 > 0 ==> r.0 >= BINADE,
        bits > 0 ==> r.0 > 0,
        r.1 * BINADE + r.0 == bits,
{
    let exponent: u64 = bits / BINADE;
    let fraction: u64 = bits % BINADE;
    if exponent == 0 {
        proof {
            lemma_units_form(0, fraction as int);
        }
        (fraction, 0)
    } else {
        proof {
            lemma_units_form((exponent - 1) as nat, BINADE + fraction);
        }
        (BINADE + fraction, (exponent - 1) as u32)
    }
}

proof fn lemma_zero_rounds(den: nat)
    requires
        den > 0,
    ensures
        nearest(0, den) == 0,
{
    assert(units(0) == 0);
    assert(units(1) == 1);
    assert(den * (0nat + 1nat) == den) by (nonlinear_arith);
    assert(rounds_to(0, den, 0));
    lemma_nearest(0, den, 0);
}

/// An exact number of steps is bracketed without anything more.
proof fn lemma_brackets_exact(m: int, e: nat, num: nat)
    requires
        num == m * twos(e),
        m >= 0,
    ensures
        brackets(m, e as int, false, num, 1),
{
    lemma_twos_add(e, bias());
    let a = twos(e) as int;
    let c = twos(bias()) as int;
    assert((m * a) * c == m * (1 * (a * c))) by (nonlinear_arith);
}

impl Binary64 {
    /// The number nearest to a count.
    pub fn from_count(n: u64) -> (r: Binary64)
        ensures
            r == Binary64::of_count(n),
    {
        if n == 0 {
            proof {
                assert(0 * one_units() == 0);
                lemma_zero_rounds(1);
            }
            return Binary64::from_bits(0);
        }
        proof {
            lemma_twos_120();
            lemma_brackets_exact(n as int, 1074, n as nat * one_units());
        }
        let bits: u64 = round_scaled(
            n as u128,
            1074,
            false,
            Ghost(n as nat * one_units()),
            Ghost(1),
        );
        proof {
            lemma_nearest(n as nat * one_units(), 1, bits as int);
        }
        Binary64::from_bits(bits)
    }

    /// Multiply two numbers.
    pub fn multiply(self, other: Binary64) -> (r: Binary64)
        requires
            self.is_magnitude(),
            other.is_magnitude(),
        ensures
            r == self.times(other),
            r.bits <= INFINITY_BITS,
    {
        let (ma, ea): (u64, u32) = parts(self.bits);
        let (mb, eb): (u64, u32) = parts(other.bits);
        let ghost num = self.in_units() * other.in_units();
        let ghost den = one_units();
        proof {
            lemma_twos_grow(0, 1074);
        }
        if ma == 0 || mb == 0 {
            proof {
                assert(0 * twos(ea as nat) == 0);
                assert(0 * twos(eb as nat) == 0);
                assert(num == 0) by (nonlinear_arith)
                    requires
                        num == self.in_units() * other.in_units(),
                        self.in_units() == 0 || other.in_units() == 0,
                ;
                lemma_zero_rounds(den);
            }
            return Binary64::from_bits(0);
        }
        let e: i32 = ea as i32 + eb as i32 - 1074;
        proof {
            lemma_twos_120();
            assert(0 < ma * mb < 0x100_0000_0000_0000_0000_0000_0000_0000) by (nonlinear_arith)
                requires
                    0 < ma < 2 * BINADE,
                    0 < mb < 2 * BINADE,
            ;
            lemma_product_brackets(ma as int, ea as nat, mb as int, eb as nat, num);
        }
        let m: u128 = ma as u128 * mb as u128;
        let bits: u64 = round_scaled(m, e, false, Ghost(num), Ghost(den));
        proof {
            lemma_nearest(num, den, bits as int);
        }
        Binary64::from_bits(bits)
    }

    /// Divide two numbers.
    pub fn divide(self, other: Binary64) -> (r: Binary64)
        requires
            self.is_magnitude(),
            other.is_magnitude(),
            other.bits > 0,
        ensures
            r == self.over(other),
            r.bits <= INFINITY_BITS,
    {
        let (ma, ea): (u64, u32) = parts(self.bits);
        let (mb, eb): (u64, u32) = parts(other.bits);
        let ghost num = self.in_units() * one_units();
        let ghost den = other.in_units();
        proof {
            lemma_twos_grow(0, eb as nat);
            assert(den > 0) by (nonlinear_arith)
                requires
                    den == mb * twos(eb as nat),
                    mb > 0,
                    twos(eb as nat) >= 1,
            ;
            lemma_twos_120();
        }
        if ma == 0 {
            proof {
                assert(0 * twos(ea as nat) == 0);
                assert(0 * one_units() == 0);
                lemma_zero_rounds(den);
            }
            return Binary64::from_bits(0);
        }
        proof {
            lemma_twos_grow(53, 120);
        }
        let len: u32 = bit_length(ma as u128);
        proof {
            if len > 53 {
                lemma_twos_grow(53, (len - 1) as nat);
            }
        }
        let j: u32 = 53 - len;
        let scale: u128 = power_of_two(j + 66);
        proof {
            lemma_twos_add((j + 66) as nat, len as nat);
            lemma_twos_add((j + 66) as nat, (len - 1) as nat);
            lemma_twos_grow(119, 120);
            assert(twos(120) == 2 * twos(119));
            assert(ma * scale < twos(119)) by (nonlinear_arith)
                requires
                    ma < twos(len as nat),
                    scale == twos((j + 66) as nat),
                    scale >= 1,
                    twos(119) == twos((j + 66) as nat) * twos(len as nat),
            ;
            assert(ma * scale >= twos(118)) by (nonlinear_arith)
                requires
                    ma >= twos((len - 1) as nat),
                    scale == twos((j + 66) as nat),
                    scale >= 1,
                    twos(118) == twos((j + 66) as nat) * twos((len - 1) as nat),
            ;
        }
        let n: u128 = ma as u128 * scale;
        let q: u128 = n / mb as u128;
        let rem: u128 = n % mb as u128;
        let e: i32 = ea as i32 - j as i32 - eb as i32 + 1074 - 66;
        proof {
            vstd::arithmetic::div_mod::lemma_fundamental_div_mod(n as int, mb as int);
            lemma_twos_add(53, 65);
            assert(q >= twos(65)) by (nonlinear_arith)
                requires
                    n >= twos(53) * twos(65),
                    n == mb * q + rem,
                    rem < mb,
                    0 < mb < twos(53),
            ;
            assert(q <= n) by (nonlinear_arith)
                requires
                    n == mb * q + rem,
                    mb > 0,
            ;
            lemma_twos_grow(54, 65);
            lemma_quotient_brackets(
                ma as int,
                ea as nat,
                mb as int,
                eb as nat,
                (j + 66) as nat,
                q as int,
                rem as int,
                e as int,
                num,
                den,
            );
        }
        let bits: u64 = round_scaled(q, e, rem != 0, Ghost(num), Ghost(den));
        proof {
            lemma_nearest(num, den, bits as int);
        }
        Binary64::from_bits(bits)
    }
}

proof fn lemma_product_brackets(ma: int, ea: nat, mb: int, eb: nat, num: nat)
    requires
        ma >= 0,
        mb >= 0,
        num == (ma * twos(ea)) * (mb * twos(eb)),
    ensures
        brackets(ma * mb, ea + eb - 1074, false, num, one_units()),
{
    let a = twos(ea) as int;
    let b = twos(eb) as int;
    let c = twos(bias()) as int;
    let e = ea + eb - 1074;
    let t = twos((e + bias()) as nat) as int;
    lemma_twos_add(ea, eb);
    lemma_twos_add(ea + eb, bias());
    lemma_twos_add(1074, (e + bias()) as nat);
    assert(ea + eb + bias() == 1074 + (e + bias()) as nat);
    assert((a * b) * c == one_units() * t);
    assert(((ma * a) * (mb * b)) * c == (ma * mb) * ((a * b) * c)) by (nonlinear_arith);
}

proof fn lemma_quotient_brackets(
    ma: int,
    ea: nat,
    mb: int,
    eb: nat,
    shift: nat,
    q: int,
    rem: int,
    e: int,
    num: nat,
    den: nat,
)
    requires
        ma > 0,
        mb > 0,
        ma * twos(shift) == mb * q + rem,
        0 <= rem < mb,
        num == (ma * twos(ea)) * one_units(),
        den == mb * twos(eb),
        e == ea + 1074 - eb - shift,
        -4000 <= e,
    ensures
        brackets(q, e, rem != 0, num, den),
{
    let c = twos(bias()) as int;
    let f = (eb + e + bias()) as nat;
    let v = twos(f) as int;
    let y = num * c;
    let w = den * twos((e + bias()) as nat);
    lemma_twos_add(ea, 1074);
    lemma_twos_add(ea + 1074, bias());
    lemma_twos_add(shift, f);
    assert(shift + f == ea + 1074 + bias());
    lemma_twos_add(eb, (e + bias()) as nat);
    assert(eb + (e + bias()) as nat == f);
    lemma_twos_grow(0, f);
    let s = twos(shift) as int;
    assert(y == (ma * s) * v) by (nonlinear_arith)
        requires
            y == ((ma * twos(ea)) * one_units()) * c,
            (twos(ea) * one_units()) * c == s * v,
    ;
    assert(w == mb * v) by (nonlinear_arith)
        requires
            w == (mb * twos(eb)) * twos((e + bias()) as nat),
            v == twos(eb) * twos((e + bias()) as nat),
    ;
    assert(q * w == (mb * q) * v) by (nonlinear_arith)
        requires
            w == mb * v,
    ;
    assert((q + 1) * w == (mb * q + mb) * v) by (nonlinear_arith)
        requires
            w == mb * v,
    ;
    assert(y == (mb * q + rem) * v);
    assert(rem < mb ==> (mb * q + rem) * v < (mb * q + mb) * v) by (nonlinear_arith)
        requires
            v >= 1,
    ;
    assert(rem > 0 ==> (mb * q) * v < (mb * q + rem) * v) by (nonlinear_arith)
        requires
            v >= 1,
    ;
}

impl Binary64 {
    /// Add two numbers.
    pub fn add_to(self, other: Binary64) -> (r: Binary64)
        requires
            self.is_magnitude(),
            other.is_magnitude(),
        ensures
            r == self.plus(other),
            r.bits <= INFINITY_BITS,
    {
        let (high, low): (Binary64, Binary64) = if self.bits >= other.bits {
            (self, other)
        } else {
            (other, self)
        };
        let (mh, eh): (u64, u32) = parts(high.bits);
        let (ml, el): (u64, u32) = parts(low.bits);
        let ghost num = self.in_units() + other.in_units();
        proof {
            lemma_parts_order(mh as int, eh as int, ml as int, el as int);
            lemma_twos_120();
        }
        if mh == 0 {
            proof {
                assert(0 * twos(eh as nat) == 0);
                assert(ml == 0);
                assert(0 * twos(el as nat) == 0);
                lemma_zero_rounds(1);
            }
            return Binary64::from_bits(0);
        }
        let d: u32 = eh - el;
        let bits: u64 = if d <= 60 {
            let scale: u128 = power_of_two(d);
            proof {
                lemma_twos_grow(d as nat, 60);
                lemma_twos_add(60, 60);
                lemma_scaled_bound(mh as int, scale as int);
                lemma_aligned(mh as int, eh as nat, ml as int, el as nat, d as nat);
                lemma_brackets_exact(mh * scale + ml, el as nat, num);
            }
            let m: u128 = mh as u128 * scale + ml as u128;
            round_scaled(m, el as i32, false, Ghost(num), Ghost(1))
        } else {
            let (q, rem): (u64, bool) = cut_off(ml, d - 60);
            let scale: u128 = power_of_two(60);
            proof {
                lemma_scaled_bound(mh as int, scale as int);
                lemma_twos_add(60, 60);
                lemma_twos_grow(54, 60);
                lemma_large_scaled(mh as int, scale as int);
                lemma_sum_brackets(
                    mh as int,
                    eh as nat,
                    ml as int,
                    el as nat,
                    (d - 60) as nat,
                    q as int,
                    rem,
                    num,
                );
            }
            let m: u128 = mh as u128 * scale + q as u128;
            round_scaled(m, eh as i32 - 60, rem, Ghost(num), Ghost(1))
        };
        proof {
            lemma_nearest(num, 1, bits as int);
        }
        Binary64::from_bits(bits)
    }

    /// Subtract a number that is not larger.
    pub fn subtract(self, other: Binary64) -> (r: Binary64)
        requires
            self.is_magnitude(),
            other.bits <= self.bits,
        ensures
            r == self.minus(other),
            r.bits <= self.bits,
    {
        let (mh, eh): (u64, u32) = parts(self.bits);
        let (ml, el): (u64, u32) = parts(other.bits);
        let ghost num = (self.in_units() - other.in_units()) as nat;
        proof {
            lemma_units_grow(other.bits as int, self.bits as int);
            lemma_parts_order(mh as int, eh as int, ml as int, el as int);
            lemma_twos_120();
        }
        if self.bits == other.bits {
            proof {
                lemma_zero_rounds(1);
            }
            return Binary64::from_bits(0);
        }
        proof {
            lemma_units_grow(other.bits as int, self.bits as int);
        }
        let d: u32 = eh - el;
        let bits: u64 = if d <= 60 {
            let scale: u128 = power_of_two(d);
            proof {
                lemma_twos_grow(d as nat, 60);
                lemma_twos_add(60, 60);
                lemma_scaled_bound(mh as int, scale as int);
                lemma_aligned(mh as int, eh as nat, ml as int, el as nat, d as nat);
                lemma_twos_grow(0, el as nat);
                assert(mh * scale > ml) by (nonlinear_arith)
                    requires
                        (mh * scale) * twos(el as nat) > ml * twos(el as nat),
                        twos(el as nat) >= 1,
                ;
                lemma_brackets_exact(mh * scale - ml, el as nat, num);
            }
            let m: u128 = mh as u128 * scale - ml as u128;
            round_scaled(m, el as i32, false, Ghost(num), Ghost(1))
        } else {
            let (q, rem): (u64, bool) = cut_off(ml, d - 60);
            let scale: u128 = power_of_two(60);
            proof {
                lemma_scaled_bound(mh as int, scale as int);
                lemma_twos_add(60, 60);
                lemma_twos_grow(54, 60);
                lemma_large_scaled(mh as int, scale as int);
                lemma_difference_brackets(
                    mh as int,
                    eh as nat,
                    ml as int,
                    el as nat,
                    (d - 60) as nat,
                    q as int,
                    rem,
                    num,
                );
            }
            let taken: u128 = if rem {
                q as u128 + 1
            } else {
                q as u128
            };
            let m: u128 = mh as u128 * scale - taken;
            round_scaled(m, eh as i32 - 60, rem, Ghost(num), Ghost(1))
        };
        proof {
            lemma_nearest(num, 1, bits as int);
            lemma_at_most(num, 1, self.bits as int);
        }
        Binary64::from_bits(bits)
    }
}

/// Patterns in order have exponents in order.
proof fn lemma_parts_order(mh: int, eh: int, ml: int, el: int)
    requires
        eh * BINADE + mh >= el * BINADE + ml,
        0 <= mh < 2 * BINADE,
        0 <= ml < 2 * BINADE,
        eh > 0 ==> mh >= BINADE,
        el > 0 ==> ml >= BINADE,
        eh >= 0,
        el >= 0,
    ensures
        eh >= el,
        mh == 0 ==> ml == 0,
{
}

proof fn lemma_scaled_bound(m: int, scale: int)
    requires
        0 <= m < 2 * BINADE,
        1 <= scale <= twos(60),
    ensures
        m <= m * scale < 0x20_0000_0000_0000_0000_0000_0000_0000,
{
    lemma_twos_120();
    assert(m <= m * scale <= (2 * BINADE - 1) * 0x1000_0000_0000_0000) by (nonlinear_arith)
        requires
            0 <= m <= 2 * BINADE - 1,
            1 <= scale <= 0x1000_0000_0000_0000,
    ;
}

proof fn lemma_large_scaled(m: int, scale: int)
    requires
        m >= BINADE,
        scale == twos(60),
    ensures
        m * scale - 2 * BINADE - 1 >= twos(60),
        twos(60) == 0x1000_0000_0000_0000,
{
    lemma_twos_120();
    assert(m * scale >= BINADE * 0x1000_0000_0000_0000) by (nonlinear_arith)
        requires
            m >= BINADE,
            scale == 0x1000_0000_0000_0000,
    ;
}

/// A number of large steps as a number of small ones.
proof fn lemma_aligned(mh: int, eh: nat, ml: int, el: nat, d: nat)
    requires
        eh == el + d,
    ensures
        mh * twos(eh) == (mh * twos(d)) * twos(el),
        mh * twos(eh) + ml * twos(el) == (mh * twos(d) + ml) * twos(el),
        mh * twos(eh) - ml * twos(el) == (mh * twos(d) - ml) * twos(el),
{
    lemma_twos_add(d, el);
    let a = twos(d) as int;
    let b = twos(el) as int;
    assert(mh * (a * b) == (mh * a) * b) by (nonlinear_arith);
    assert((mh * a + ml) * b == (mh * a) * b + ml * b) by (nonlinear_arith);
    assert((mh * a - ml) * b == (mh * a) * b - ml * b) by (nonlinear_arith);
}

/// A number without its last `shift` binary digits, and whether any of them is set.
fn cut_off(m: u64, shift: u32) -> (r: (u64, bool))
    requires
        m < 2 * BINADE,
        shift >= 1,
    ensures
        r.0 == m as int / twos(shift as nat) as int,
        r.1 == (m as int % twos(shift as nat) as int != 0),
        r.0 <= m,
{
    proof {
        lemma_twos_120();
        lemma_twos_grow(0, shift as nat);
    }
    if shift >= 53 {
        proof {
            lemma_twos_grow(53, shift as nat);
            vstd::arithmetic::div_mod::lemma_basic_div(m as int, twos(shift as nat) as int);
            vstd::arithmetic::div_mod::lemma_small_mod(m as nat, twos(shift as nat));
        }
        (0, m != 0)
    } else {
        let p: u128 = power_of_two(shift);
        proof {
            vstd::arithmetic::div_mod::lemma_div_is_ordered_by_denominator(m as int, 1, p as int);
            assert(m as int / 1 == m);
        }
        ((m as u128 / p) as u64, m as u128 % p != 0)
    }
}

proof fn lemma_split_low(ml: int, el: nat, shift: nat, e: nat, q: int)
    requires
        ml >= 0,
        e == el + shift,
        q == ml / twos(shift) as int,
    ensures
        ({
            let rest = (ml % twos(shift) as int) * twos(el);
            &&& ml * twos(el) == q * twos(e) + rest
            &&& 0 <= rest < twos(e)
            &&& rest == 0 <==> ml % twos(shift) as int == 0
        }),
{
    let p = twos(shift) as int;
    let b = twos(el) as int;
    lemma_twos_add(shift, el);
    lemma_twos_grow(0, shift);
    lemma_twos_grow(0, el);
    vstd::arithmetic::div_mod::lemma_fundamental_div_mod(ml, p);
    let rem = ml % p;
    assert((p * q + rem) * b == q * (p * b) + rem * b) by (nonlinear_arith);
    assert(0 <= rem * b < p * b) by (nonlinear_arith)
        requires
            0 <= rem < p,
            b >= 1,
    ;
    assert(rem > 0 ==> rem * b > 0) by (nonlinear_arith)
        requires
            b >= 1,
    ;
    assert(0 * b == 0);
}

proof fn lemma_sum_brackets(
    mh: int,
    eh: nat,
    ml: int,
    el: nat,
    shift: nat,
    q: int,
    rem: bool,
    num: nat,
)
    requires
        mh >= 0,
        ml >= 0,
        eh == el + shift + 60,
        q == ml / twos(shift) as int,
        rem == (ml % twos(shift) as int != 0),
        num == mh * twos(eh) + ml * twos(el),
    ensures
        brackets(mh * twos(60) + q, eh - 60, rem, num, 1),
{
    let e = (eh - 60) as nat;
    lemma_aligned(mh, eh, q, e, 60);
    lemma_split_low(ml, el, shift, e, q);
    let m = mh * twos(60) + q;
    let rest = (ml % twos(shift) as int) * twos(el);
    assert(num == m * twos(e) + rest);
    lemma_between(m, e, rest, num);
}

proof fn lemma_difference_brackets(
    mh: int,
    eh: nat,
    ml: int,
    el: nat,
    shift: nat,
    q: int,
    rem: bool,
    num: nat,
)
    requires
        mh >= 0,
        ml >= 0,
        eh == el + shift + 60,
        q == ml / twos(shift) as int,
        rem == (ml % twos(shift) as int != 0),
        num == mh * twos(eh) - ml * twos(el),
    ensures
        brackets(
            mh * twos(60) - q - if rem {
                1int
            } else {
                0
            },
            eh - 60,
            rem,
            num,
            1,
        ),
{
    let e = (eh - 60) as nat;
    lemma_aligned(mh, eh, q, e, 60);
    lemma_split_low(ml, el, shift, e, q);
    let whole = mh * twos(60) - q;
    let rest = (ml % twos(shift) as int) * twos(el);
    assert(num == whole * twos(e) - rest);
    if rem {
        let m = whole - 1;
        assert(whole * twos(e) == m * twos(e) + twos(e)) by (nonlinear_arith)
            requires
                m == whole - 1,
        ;
        lemma_between(m, e, twos(e) - rest, num);
    } else {
        lemma_between(whole, e, 0, num);
    }
}

/// A whole number of steps and part of one.
proof fn lemma_between(m: int, e: nat, rest: int, num: nat)
    requires
        num == m * twos(e) + rest,
        0 <= rest < twos(e),
    ensures
        brackets(m, e as int, rest != 0, num, 1),
{
    let a = twos(e) as int;
    let c = twos(bias()) as int;
    lemma_twos_add(e, bias());
    lemma_twos_grow(0, bias());
    let w = 1 * twos(e + bias());
    assert(w == a * c);
    assert((m * a + rest) * c == m * (a * c) + rest * c) by (nonlinear_arith);
    assert((m + 1) * (a * c) == m * (a * c) + a * c) by (nonlinear_arith);
    assert(rest * c < a * c) by (nonlinear_arith)
        requires
            rest < a,
            c >= 1,
    ;
    assert(rest > 0 ==> rest * c > 0) by (nonlinear_arith)
        requires
            c >= 1,
    ;
    assert(0 * c == 0);
}

// ---------------------------------------------------------------------
// Whole numbers
// ---------------------------------------------------------------------

/// A whole number held between 1 and the largest 32-bit number.
pub open spec fn held_count(n: int) -> int {
    if n < 1 {
        1
    } else if n > u32::MAX {
        u32::MAX as int
    } else {
        n
    }
}

proof fn lemma_ceiling(num: nat, den: nat, c: int)
    requires
        den > 0,
        (c - 1) * den < num <= c * den,
    ensures
        ceiling(num, den) == c,
{
    let n = num + den - 1;
    let r = n - c * den;
    assert(0 <= r < den) by (nonlinear_arith)
        requires
            (c - 1) * den < num <= c * den,
            r == num + den - 1 - c * den,
    ;
    assert(n == c * den + r);
    vstd::arithmetic::div_mod::lemma_fundamental_div_mod_converse(n as int, den as int, c, r);
}

impl Binary64 {
    /// Round a number up to a whole number, held between 1 and the largest 32-bit
    /// number. Infinity counts as large.
    pub fn ceil_count(self) -> (r: u32)
        requires
            self.bits <= INFINITY_BITS,
        ensures
            r == held_count(self.rounded_up()),
    {
        let ghost one = one_units();
        proof {
            lemma_twos_grow(0, 1074);
            lemma_twos_120();
        }
        if self.bits == INFINITY_BITS {
            proof {
                lemma_infinite_count();
            }
            return u32::MAX;
        }
        let (m, e): (u64, u32) = parts(self.bits);
        if e >= 1074 {
            proof {
                lemma_large_ceiling(m as int, e as nat);
            }
            return u32::MAX;
        }
        let t: u32 = 1074 - e;
        let (q, rem): (u64, bool) = cut_off(m, t);
        let c: u64 = if rem {
            q + 1
        } else {
            q
        };
        proof {
            lemma_split_low(m as int, e as nat, t as nat, 1074, q as int);
            let rest = (m as int % twos(t as nat) as int) * twos(e as nat);
            let u = self.in_units() as int;
            assert(u == q * one + rest);
            assert((q + 1) * one == q * one + one) by (nonlinear_arith);
            assert((q - 1) * one == q * one - one) by (nonlinear_arith);
            lemma_ceiling(self.in_units(), one, c as int);
        }
        if c < 1 {
            1
        } else if c > u32::MAX as u64 {
            u32::MAX
        } else {
            c as u32
        }
    }
}

impl Binary64 {
    /// Drop the fraction of a number, holding the result at the largest counter value.
    pub fn floor_count(self) -> (r: u64)
        requires
            self.is_magnitude(),
        ensures
            r == if self.rounded_down() > u64::MAX {
                u64::MAX as int
            } else {
                self.rounded_down()
            },
    {
        let (m, e): (u64, u32) = parts(self.bits);
        proof {
            lemma_twos_120();
            lemma_twos_grow(0, 1074);
        }
        if e >= 1074 {
            let d: u32 = e - 1074;
            let n: u64 = if d >= 12 {
                proof {
                    lemma_twos_add(52, 12);
                    lemma_twos_grow(12, d as nat);
                    assert(m * twos(d as nat) >= twos(64)) by (nonlinear_arith)
                        requires
                            m >= twos(52),
                            twos(d as nat) >= twos(12),
                            twos(52) * twos(12) == twos(64),
                    ;
                }
                u64::MAX
            } else {
                let scale: u128 = power_of_two(d);
                proof {
                    lemma_twos_grow(d as nat, 11);
                    lemma_twos_add(53, 11);
                    assert(m * scale < twos(64)) by (nonlinear_arith)
                        requires
                            m < twos(53),
                            scale == twos(d as nat),
                            1 <= twos(d as nat) <= twos(11),
                            twos(53) * twos(11) == twos(64),
                    ;
                }
                (m as u128 * scale) as u64
            };
            proof {
                lemma_twos_add(d as nat, 1074);
                let whole = m * twos(d as nat);
                assert(self.in_units() == whole * one_units()) by (nonlinear_arith)
                    requires
                        self.in_units() == m * twos(e as nat),
                        twos(e as nat) == twos(d as nat) * one_units(),
                        whole == m * twos(d as nat),
                ;
                vstd::arithmetic::div_mod::lemma_div_multiples_vanish(whole, one_units() as int);
                assert(one_units() * whole == whole * one_units()) by (nonlinear_arith);
            }
            n
        } else {
            let t: u32 = 1074 - e;
            let (q, _): (u64, bool) = cut_off(m, t);
            proof {
                lemma_split_low(m as int, e as nat, t as nat, 1074, q as int);
                let rest = (m as int % twos(t as nat) as int) * twos(e as nat);
                vstd::arithmetic::div_mod::lemma_fundamental_div_mod_converse(
                    self.in_units() as int,
                    one_units() as int,
                    q as int,
                    rest,
                );
            }
            q
        }
    }

    /// Round a number below 2 to the power 52 to the nearest whole number.
    pub fn round_count(self) -> (r: u64)
        requires
            self.bits < power_bits(52),
        ensures
            r == self.nearest_whole(),
    {
        proof {
            lemma_power_units(52);
        }
        let (m, e): (u64, u32) = parts(self.bits);
        assert(e < 1074);
        let t: u32 = 1073 - e;
        let (h, sticky): (u64, bool) = if t == 0 {
            (m, false)
        } else {
            cut_off(m, t)
        };
        let q: u64 = h / 2;
        proof {
            let half = twos(1073) as int;
            lemma_twos_grow(0, 1073);
            assert(one_units() == 2 * half);
            lemma_twos_grow(0, t as nat);
            let u = self.in_units() as int;
            let low = if t == 0 {
                0
            } else {
                (m as int % twos(t as nat) as int) * twos(e as nat)
            };
            if t > 0 {
                lemma_split_low(m as int, e as nat, t as nat, 1073, h as int);
            }
            assert(u == h * half + low);
            let bit = (h % 2) as int;
            assert(h * half == q * (2 * half) + bit * half) by (nonlinear_arith)
                requires
                    h == 2 * q + bit,
            ;
            assert(0 * half == 0);
            assert(1 * half == half);
            vstd::arithmetic::div_mod::lemma_fundamental_div_mod_converse(
                u,
                one_units() as int,
                q as int,
                bit * half + low,
            );
        }
        if h % 2 == 1 && (sticky || q % 2 == 1) {
            q + 1
        } else {
            q
        }
    }
}

/// Infinity rounds up to the largest count.
pub proof fn lemma_infinite_count()
    ensures
        held_count((Binary64 { bits: INFINITY_BITS }).rounded_up()) == u32::MAX,
{
    lemma_units_form(2046, BINADE as int);
    assert(2046 * BINADE + BINADE == INFINITY_BITS);
    lemma_large_ceiling(BINADE as int, 2046);
}

proof fn lemma_large_ceiling(m: int, e: nat)
    requires
        m >= BINADE,
        e >= 1074,
    ensures
        ceiling((m * twos(e)) as nat, one_units()) > u32::MAX,
{
    let one = one_units() as int;
    let u = m * twos(e);
    lemma_twos_grow(0, 1074);
    lemma_twos_grow(1074, e);
    assert(u >= BINADE * one) by (nonlinear_arith)
        requires
            u == m * twos(e),
            m >= BINADE,
            twos(e) >= one,
            one >= 1,
    ;
    let n = u + one - 1;
    vstd::arithmetic::div_mod::lemma_div_is_ordered(BINADE * one, n, one);
    vstd::arithmetic::div_mod::lemma_div_multiples_vanish(BINADE as int, one);
    assert(one * BINADE == BINADE * one) by (nonlinear_arith);
}

} // verus!
