//! Decimal numerals read as binary64 numbers and cut to 16-bit counts.
//!
//! A metrics value is a decimal numeral. It stands for the binary64 number
//! nearest to it, and a count is that number without its fraction, held between
//! 0 and 65535. Rounding to binary64 changes the whole part of a value below
//! 65535 only when the value is so close to the next whole number that no
//! binary64 number lies nearer to it than that whole number.

use vstd::prelude::*;

use crate::arithmetic::{one_units, rounded};
use crate::binary64::Binary64;
use crate::bounds::{lemma_at_least, lemma_at_most, lemma_count_is_exact};
use crate::numerals::{
    all_digits, decimal, digits_value, integer_value, is_digit, law_decimal_reads_back,
    law_signs_of_numerals,
};
use crate::powers::{
    lemma_tens_add, lemma_tens_grow, lemma_twos_add, lemma_twos_grow, tens, twos,
};
use crate::rounding::{
    lemma_rounds, lemma_twos_120, lemma_units_form, lemma_units_grow, units, BINADE,
};
use crate::text::{find_char, first_index, lemma_first_index, part};

verus! {

/// Index of the exponent mark, or the length when there is none.
pub open spec fn exponent_mark(s: Seq<char>) -> int {
    let lower = first_index(s, 'e');
    let upper = first_index(s, 'E');
    if lower < upper {
        lower
    } else {
        upper
    }
}

/// A decimal numeral taken apart: the value is that of `digits` times 10 to the
/// power `exponent`, negated where `negative`.
pub struct Numeral {
    /// Whether there is a minus sign.
    pub negative: bool,
    /// The digits before the point and those after it.
    pub digits: Seq<char>,
    /// The power of ten.
    pub exponent: int,
}

/// The parts of a numeral without its sign: digits with an optional point, at
/// least one digit, and an optional exponent.
pub open spec fn unsigned_numeral(negative: bool, s: Seq<char>) -> Option<Numeral> {
    let mark = exponent_mark(s);
    let mantissa = s.take(mark);
    let point = first_index(mantissa, '.');
    let whole = mantissa.take(point);
    let fraction = if point < mantissa.len() {
        mantissa.skip(point + 1)
    } else {
        seq![]
    };
    let power = if mark < s.len() {
        integer_value(s.skip(mark + 1))
    } else {
        Some(0)
    };
    if all_digits(whole) && all_digits(fraction) && whole.len() + fraction.len() > 0 && power is Some {
        Some(
            Numeral {
                negative,
                digits: whole + fraction,
                exponent: power->0 - fraction.len(),
            },
        )
    } else {
        None
    }
}

/// The parts of a decimal numeral, if the text is one.
pub open spec fn numeral(s: Seq<char>) -> Option<Numeral> {
    if s.len() > 0 && (s[0] == '+' || s[0] == '-') {
        unsigned_numeral(s[0] == '-', s.drop_first())
    } else {
        unsigned_numeral(false, s)
    }
}

/// The count that the quotient of two numbers stands for: the binary64 number
/// nearest to it, without the fraction, and at most 65535.
#[verifier::opaque]
pub open spec fn rounded_count(num: nat, den: nat) -> nat {
    let count = rounded(num * one_units(), den).rounded_down();
    if count > 65535 {
        65535
    } else {
        count as nat
    }
}

/// The count that a numeral stands for; a negative one stands for 0.
pub open spec fn numeral_count(n: Numeral) -> nat {
    let value = digits_value(n.digits);
    if n.negative {
        0
    } else if n.exponent >= 0 {
        rounded_count(value * tens(n.exponent as nat), 1)
    } else {
        rounded_count(value, tens((-n.exponent) as nat))
    }
}

/// The count that a text stands for, if it is a decimal numeral.
pub open spec fn count_of(s: Seq<char>) -> Option<nat> {
    match numeral(s) {
        Some(n) => Some(numeral_count(n)),
        None => None,
    }
}

// ---------------------------------------------------------------------
// Digits
// ---------------------------------------------------------------------

/// A sequence of digits denotes less than 10 to the power of its length.
proof fn lemma_digits_bound(s: Seq<char>)
    requires
        all_digits(s),
    ensures
        digits_value(s) < tens(s.len()),
    decreases s.len(),
{
    if s.len() > 0 {
        assert(all_digits(s.drop_last()));
        lemma_digits_bound(s.drop_last());
        assert(is_digit(s[s.len() - 1]));
    }
}

/// What two runs of digits denote together.
proof fn lemma_digits_concat(a: Seq<char>, b: Seq<char>)
    ensures
        digits_value(a + b) == digits_value(a) * tens(b.len()) + digits_value(b),
    decreases b.len(),
{
    if b.len() == 0 {
        assert(a + b =~= a);
        assert(digits_value(a) * 1 == digits_value(a));
    } else {
        let front = b.drop_last();
        lemma_digits_concat(a, front);
        assert((a + b).drop_last() =~= a + front);
        assert((a + b).last() == b.last());
        let x = digits_value(a);
        let t = tens(front.len());
        assert((x * t) * 10 == x * (10 * t)) by (nonlinear_arith);
        assert(digits_value(a + front) * 10 == x * (10 * t) + digits_value(front) * 10);
    }
}

/// Leading zeros do not change what digits denote.
proof fn lemma_leading_zeros(s: Seq<char>, zeros: int)
    requires
        0 <= zeros <= s.len(),
        forall|i: int| 0 <= i < zeros ==> s[i] == '0',
    ensures
        digits_value(s) == digits_value(s.skip(zeros)),
    decreases zeros,
{
    if zeros == 0 {
        assert(s.skip(0) =~= s);
    } else {
        lemma_leading_zeros(s, zeros - 1);
        let rest = s.skip(zeros - 1);
        assert(rest =~= seq!['0'] + s.skip(zeros));
        lemma_digits_concat(seq!['0'], s.skip(zeros));
        reveal_with_fuel(digits_value, 2);
        assert(seq!['0'].drop_last() =~= Seq::<char>::empty());
        assert(digits_value(seq!['0']) == 0);
        assert(0 * tens(s.skip(zeros).len()) == 0);
    }
}

/// Digits without a leading zero denote at least 10 to the power of one less
/// than their number.
proof fn lemma_digits_least(s: Seq<char>)
    requires
        all_digits(s),
        s.len() > 0,
        s[0] != '0',
    ensures
        digits_value(s) >= tens((s.len() - 1) as nat),
{
    let head = s.take(1);
    let rest = s.skip(1);
    assert(s =~= head + rest);
    lemma_digits_concat(head, rest);
    reveal_with_fuel(digits_value, 2);
    assert(head.drop_last() =~= Seq::<char>::empty());
    assert(head.last() == s[0]);
    assert(is_digit(s[0]));
    assert(digits_value(head) >= 1);
    assert(digits_value(head) * tens(rest.len()) >= tens(rest.len())) by (nonlinear_arith)
        requires
            digits_value(head) >= 1,
    ;
}

// ---------------------------------------------------------------------
// Closeness to the next whole number
// ---------------------------------------------------------------------

/// What a sequence of digit values denotes.
spec fn fraction_value(s: Seq<u8>) -> nat
    decreases s.len(),
{
    if s.len() == 0 {
        0
    } else {
        s[0] as nat * tens((s.len() - 1) as nat) + fraction_value(s.drop_first())
    }
}

spec fn all_small(s: Seq<u8>) -> bool {
    forall|i: int| 0 <= i < s.len() ==> #[trigger] s[i] < 10
}

proof fn lemma_fraction_bound(s: Seq<u8>)
    requires
        all_small(s),
    ensures
        fraction_value(s) < tens(s.len()),
    decreases s.len(),
{
    if s.len() > 0 {
        assert(all_small(s.drop_first()));
        lemma_fraction_bound(s.drop_first());
        assert(s[0] < 10);
        let t = tens((s.len() - 1) as nat);
        assert(s[0] * t <= 9 * t) by (nonlinear_arith)
            requires
                s[0] < 10,
        ;
    }
}

/// Double a fraction in place and give back the digit that comes out in front
/// of it.
fn double_fraction(f: &mut Vec<u8>) -> (carry: u8)
    requires
        all_small(old(f)@),
    ensures
        all_small(final(f)@),
        final(f)@.len() == old(f)@.len(),
        carry <= 1,
        2 * fraction_value(old(f)@) == carry * tens(old(f)@.len()) + fraction_value(final(f)@),
{
    let ghost before = f@;
    let mut i: usize = f.len();
    let mut carry: u8 = 0;
    assert(before.skip(i as int) =~= Seq::<u8>::empty());
    assert(f@.skip(i as int) =~= Seq::<u8>::empty());
    while i > 0
        invariant
            i <= f@.len(),
            f@.len() == before.len(),
            carry <= 1,
            all_small(f@),
            all_small(before),
            forall|j: int| 0 <= j < i ==> f@[j] == before[j],
            2 * fraction_value(before.skip(i as int)) == carry * tens((before.len() - i) as nat)
                + fraction_value(f@.skip(i as int)),
        decreases i,
    {
        i -= 1;
        let doubled: u8 = f[i] * 2 + carry;
        let (out, kept): (u8, u8) = if doubled >= 10 {
            (1, (doubled - 10) as u8)
        } else {
            (0, doubled)
        };
        let ghost old_carry = carry;
        let ghost previous = f@;
        f.set(i, kept);
        carry = out;
        proof {
            let t = tens((before.len() - i - 1) as nat);
            assert(before.skip(i as int).drop_first() =~= before.skip(i + 1));
            assert(f@.skip(i as int).drop_first() =~= previous.skip(i + 1));
            assert(before.skip(i as int)[0] == before[i as int]);
            assert(f@.skip(i as int)[0] == kept);
            let b = before[i as int] as int;
            assert(2 * (b * t) + old_carry * t == out * (10 * t) + kept * t) by (nonlinear_arith)
                requires
                    2 * b + old_carry == out * 10 + kept,
            ;
        }
    }
    assert(before.skip(0) =~= before);
    assert(f@.skip(0) =~= f@);
    carry
}

/// Whether a fraction is within 1 divided by 2 to the power `bits` of 1.
fn nearly_one(fraction: Vec<u8>, bits: u32) -> (r: bool)
    requires
        all_small(fraction@),
    ensures
        r == ((tens(fraction@.len()) - fraction_value(fraction@)) * twos(bits as nat) <= tens(
            fraction@.len(),
        )),
{
    let ghost start = fraction@;
    let ghost t = tens(start.len()) as int;
    let ghost room = t - fraction_value(start);
    let mut f = fraction;
    let mut done: u32 = 0;
    assert(room * 1 == room);
    while done < bits
        invariant
            done <= bits,
            start == fraction@,
            all_small(f@),
            f@.len() == start.len(),
            t == tens(start.len()),
            room == t - fraction_value(start),
            all_small(start),
            room * twos(done as nat) == t - fraction_value(f@),
        decreases bits - done,
    {
        let ghost before = fraction_value(f@);
        let carry: u8 = double_fraction(&mut f);
        proof {
            let p = twos(done as nat) as int;
            assert(twos((done + 1) as nat) == 2 * twos(done as nat));
            assert(room * (2 * p) == 2 * (room * p)) by (nonlinear_arith);
            assert(carry == 0 ==> carry * t == 0);
            assert(carry == 1 ==> carry * t == t);
            lemma_fraction_bound(f@);
            lemma_fraction_bound(start);
            if carry == 0 {
                lemma_twos_grow((done + 1) as nat, bits as nat);
                assert(room * twos(bits as nat) >= room * twos((done + 1) as nat))
                    by (nonlinear_arith)
                    requires
                        room >= 0,
                        twos(bits as nat) >= twos((done + 1) as nat),
                ;
            }
        }
        if carry == 0 {
            return false;
        }
        done += 1;
    }
    true
}

/// The digits of a text as numbers.
fn fraction_digits(chars: &Vec<char>, from: usize) -> (r: Vec<u8>)
    requires
        from <= chars@.len(),
        all_digits(chars@.skip(from as int)),
    ensures
        all_small(r@),
        r@.len() == chars@.len() - from,
        fraction_value(r@) == digits_value(chars@.skip(from as int)),
{
    let mut out: Vec<u8> = Vec::new();
    let mut i: usize = from;
    let ghost digits = chars@.skip(from as int);
    while i < chars.len()
        invariant
            from <= i <= chars.len(),
            digits == chars@.skip(from as int),
            all_digits(digits),
            out@.len() == i - from,
            all_small(out@),
            forall|j: int|
                0 <= j < out@.len() ==> #[trigger] out@[j] == digits[j] as u32 - '0' as u32,
        decreases chars.len() - i,
    {
        assert(is_digit(digits[i - from]));
        let c: char = chars[i];
        out.push((c as u32 - '0' as u32) as u8);
        i += 1;
    }
    proof {
        lemma_same_value(out@, digits);
    }
    out
}

proof fn lemma_same_value(f: Seq<u8>, s: Seq<char>)
    requires
        f.len() == s.len(),
        all_digits(s),
        forall|j: int| 0 <= j < f.len() ==> #[trigger] f[j] == s[j] as u32 - '0' as u32,
    ensures
        fraction_value(f) == digits_value(s),
    decreases f.len(),
{
    if f.len() > 0 {
        let rest = s.drop_first();
        assert forall|j: int| 0 <= j < rest.len() implies #[trigger] f.drop_first()[j]
            == rest[j] as u32 - '0' as u32 by {
            assert(f[j + 1] == s[j + 1] as u32 - '0' as u32);
        }
        assert forall|j: int| 0 <= j < rest.len() implies is_digit(#[trigger] rest[j]) by {
            assert(is_digit(s[j + 1]));
        }
        lemma_same_value(f.drop_first(), rest);
        let head = s.take(1);
        assert(s =~= head + rest);
        lemma_digits_concat(head, rest);
        reveal_with_fuel(digits_value, 2);
        assert(head.drop_last() =~= Seq::<char>::empty());
        assert(head.last() == s[0]);
        assert(is_digit(s[0]));
        assert(f[0] == s[0] as u32 - '0' as u32);
    }
}

// ---------------------------------------------------------------------
// Reading
// ---------------------------------------------------------------------

/// Exponents beyond this size are cut to it; no text is long enough for the
/// difference to matter.
const EXPONENT_LIMIT: i128 = 1_000_000_000_000_000_000_000_000_000_000;

/// An exponent cut to the limit on either side.
spec fn cut(n: int) -> int {
    if n > EXPONENT_LIMIT {
        EXPONENT_LIMIT as int
    } else if n < -EXPONENT_LIMIT {
        -EXPONENT_LIMIT
    } else {
        n
    }
}

fn only_digits(chars: &Vec<char>) -> (r: bool)
    ensures
        r == all_digits(chars@),
{
    let mut i: usize = 0;
    while i < chars.len()
        invariant
            i <= chars.len(),
            forall|j: int| 0 <= j < i ==> is_digit(#[trigger] chars@[j]),
        decreases chars.len() - i,
    {
        if !('0' <= chars[i] && chars[i] <= '9') {
            assert(!is_digit(chars@[i as int]));
            return false;
        }
        i += 1;
    }
    true
}

/// Read an exponent: an optional sign and digits.
fn read_exponent(chars: &Vec<char>) -> (r: Option<i128>)
    ensures
        match integer_value(chars@) {
            Some(n) => r is Some && r->0 == cut(n),
            None => r is None,
        },
{
    let signed: bool = chars.len() > 0 && (chars[0] == '+' || chars[0] == '-');
    let from: usize = if signed {
        1
    } else {
        0
    };
    let digits = part(chars, from, chars.len());
    proof {
        assert(chars@.subrange(0, chars@.len() as int) =~= chars@);
        if signed {
            assert(chars@.subrange(1, chars@.len() as int) =~= chars@.drop_first());
        }
    }
    if digits.len() == 0 || !only_digits(&digits) {
        return None;
    }
    let mut value: i128 = 0;
    let mut i: usize = 0;
    assert(digits@.take(0) =~= Seq::<char>::empty());
    while i < digits.len()
        invariant
            i <= digits.len(),
            all_digits(digits@),
            0 <= value <= EXPONENT_LIMIT,
            value == cut(digits_value(digits@.take(i as int)) as int),
        decreases digits.len() - i,
    {
        assert(is_digit(digits@[i as int]));
        assert(digits@.take(i + 1).drop_last() =~= digits@.take(i as int));
        let c: char = digits[i];
        let next: i128 = value * 10 + (c as u32 - '0' as u32) as i128;
        value = if next > EXPONENT_LIMIT {
            EXPONENT_LIMIT
        } else {
            next
        };
        i += 1;
    }
    assert(digits@.take(i as int) =~= digits@);
    if signed && chars[0] == '-' {
        Some(-value)
    } else {
        Some(value)
    }
}

/// How close below the next whole number a value must be to round to it: the
/// distance is at most 1 divided by 2 to this power. Binary64 numbers between 2
/// to the power `e` and the next power of 2 are 2 to the power `e - 52` apart,
/// and a tie goes to the whole number.
spec fn closeness(whole: nat) -> int
    decreases whole,
{
    if whole == 0 {
        54
    } else {
        closeness(whole / 2) - 1
    }
}

/// The count that the quotient of two numbers stands for, told by its distance to the
/// next whole number.
spec fn near_count(num: nat, den: nat) -> nat {
    let whole = num / den;
    if whole >= 65535 {
        65535
    } else if (den * (whole + 1) - num) * twos(closeness(whole) as nat) <= den {
        whole + 1
    } else {
        whole
    }
}

/// How many binary digits a whole part has.
proof fn lemma_width(whole: nat) -> (width: nat)
    ensures
        closeness(whole) == 54 - width,
        whole < twos(width),
        whole > 0 ==> 2 * whole >= twos(width),
        whole == 0 ==> width == 0,
    decreases whole,
{
    if whole == 0 {
        0
    } else {
        let half = lemma_width(whole / 2);
        assert(twos(half + 1) == 2 * twos(half));
        half + 1
    }
}

/// The pattern of the next whole number is even, and the number before it is as far
/// away as the closeness says.
proof fn lemma_next_whole(whole: nat)
    requires
        whole < 65535,
    ensures
        ({
            let p = Binary64::of_count((whole + 1) as u64).bits;
            let gap = units(p as int) - units(p - 1);
            &&& p % 2 == 0
            &&& p > 0
            &&& gap > 0
            &&& gap * twos(closeness(whole) as nat) == 2 * one_units()
        }),
{
    let width = lemma_width(whole);
    lemma_twos_120();
    assert(twos(16) == 65536) by {
        reveal_with_fuel(twos, 17);
    }
    if width > 16 {
        lemma_twos_grow(17, width);
        assert(twos(17) == 2 * twos(16));
    }
    let next = whole + 1;
    let shift = (53 - width) as nat;
    let low = (1021 + width) as nat;
    let scale = twos(shift) as int;
    let step = twos(low) as int;
    let q = next * scale;
    lemma_twos_add(width, shift);
    lemma_twos_add(shift, low);
    lemma_twos_add(low, (54 - width) as nat);
    lemma_twos_grow(0, shift);
    lemma_twos_grow(0, low);
    assert(twos(1075) == 2 * one_units());
    assert(2 * BINADE < 2 * q <= 4 * BINADE) by (nonlinear_arith)
        requires
            q == next * scale,
            twos(width) * scale == 2 * BINADE,
            twos(width) < 2 * next,
            next <= twos(width),
            scale >= 1,
    ;
    let p = low * BINADE + q;
    lemma_units_form(low, q);
    lemma_units_form(low, q - 1);
    assert(q * step == next * (scale * step)) by (nonlinear_arith)
        requires
            q == next * scale,
    ;
    assert((q - 1) * step == q * step - step) by (nonlinear_arith);
    let count = Binary64::of_count(next as u64);
    lemma_twos_grow(16, 53);
    lemma_count_is_exact(next as u64, 52);
    if count.bits < p {
        lemma_units_grow(count.bits as int, p);
    }
    if count.bits > p {
        lemma_units_grow(p, count.bits as int);
    }
    assert(q % 2 == 0) by {
        assert(scale == 2 * twos((shift - 1) as nat));
        let half = twos((shift - 1) as nat) as int;
        assert(q == 2 * (next * half)) by (nonlinear_arith)
            requires
                q == next * scale,
                scale == 2 * half,
        ;
    }
}

/// The distance to the next whole number tells the count.
proof fn lemma_near_count(num: nat, den: nat)
    requires
        den > 0,
    ensures
        rounded_count(num, den) == near_count(num, den),
{
    reveal(rounded_count);
    let one = one_units();
    let whole = num / den;
    let r = rounded(num * one, den);
    lemma_twos_grow(0, 1074);
    lemma_twos_120();
    vstd::arithmetic::div_mod::lemma_fundamental_div_mod(num as int, den as int);
    if whole >= 65535 {
        let top = Binary64::of_count(65535);
        lemma_count_is_exact(65535, 52);
        assert(num * one >= den * (65535 * one)) by (nonlinear_arith)
            requires
                num >= den * whole,
                whole >= 65535,
        ;
        lemma_at_least(num * one, den, top.bits as int);
        lemma_units_grow(top.bits as int, r.bits as int);
        vstd::arithmetic::div_mod::lemma_div_is_ordered(
            65535 * one as int,
            r.in_units() as int,
            one as int,
        );
        vstd::arithmetic::div_mod::lemma_div_multiples_vanish(65535, one as int);
    } else {
        let low = Binary64::of_count(whole as u64);
        let high = Binary64::of_count((whole + 1) as u64);
        let p = high.bits as int;
        let gap = units(p) - units(p - 1);
        let k = twos(closeness(whole) as nat) as int;
        let left = den * (whole + 1) - num;
        lemma_count_is_exact(whole as u64, 52);
        lemma_count_is_exact((whole + 1) as u64, 52);
        lemma_next_whole(whole);
        assert(den * (whole * one) <= num * one <= den * ((whole + 1) * one)) by (nonlinear_arith)
            requires
                den * whole <= num < den * whole + den,
        ;
        lemma_at_least(num * one, den, low.bits as int);
        lemma_at_most(num * one, den, p);
        lemma_rounds(num * one, den);
        lemma_units_grow(low.bits as int, r.bits as int);
        lemma_units_grow(r.bits as int, p);
        let sum = units(p - 1) + units(p);
        assert(left * k <= den <==> 2 * (num * one) >= den * sum) by (nonlinear_arith)
            requires
                left == den * (whole + 1) - num,
                sum == 2 * ((whole + 1) * one) - gap,
                gap * k == 2 * one,
                gap > 0,
        ;
        if r.bits == p {
            vstd::arithmetic::div_mod::lemma_div_multiples_vanish((whole + 1) as int, one as int);
            assert(one * (whole + 1) == (whole + 1) * one) by (nonlinear_arith);
        } else {
            lemma_units_grow(r.bits as int, p - 1);
            lemma_units_grow(r.bits + 1, p);
            assert((whole + 1) * one == whole * one + one) by (nonlinear_arith);
            vstd::arithmetic::div_mod::lemma_fundamental_div_mod_converse(
                r.in_units() as int,
                one as int,
                whole as int,
                r.in_units() - whole * one,
            );
            let above = units(r.bits as int) + units(r.bits + 1);
            assert(den * above <= den * sum) by (nonlinear_arith)
                requires
                    above <= sum,
            ;
            if r.bits < p - 1 {
                assert(den * above < den * sum) by (nonlinear_arith)
                    requires
                        above < sum,
                        den > 0,
                ;
            }
        }
    }
}

/// The closeness of a whole part below 2 to the power `width`.
fn closeness_of(whole: u32, width: u32) -> (r: u32)
    requires
        width <= 16,
        whole < twos(width as nat),
    ensures
        r == closeness(whole as nat),
        54 - width <= r <= 54,
    decreases width,
{
    if whole == 0 {
        54
    } else {
        closeness_of(whole / 2, width - 1) - 1
    }
}

/// Facts about the nearest count of a quotient that is close to 0 or large.
proof fn lemma_rounded_extremes(num: nat, den: nat)
    requires
        den > 0,
    ensures
        num >= 65535 * den ==> rounded_count(num, den) == 65535,
        10 * num < den ==> rounded_count(num, den) == 0,
        num == 0 ==> rounded_count(num, den) == 0,
{
    lemma_near_count(num, den);
    if num >= 65535 * den {
        assert(num / den >= 65535) by (nonlinear_arith)
            requires
                num >= 65535 * den,
                den > 0,
        ;
    }
    if 10 * num < den || num == 0 {
        assert(num / den == 0) by (nonlinear_arith)
            requires
                num < den,
        ;
        lemma_twos_grow(1, 54);
        assert(twos(1) == 2) by {
            reveal_with_fuel(twos, 2);
        }
        assert((den - num) * twos(54) > den) by (nonlinear_arith)
            requires
                twos(54) >= 2,
                2 * num < den,
        ;
        assert(closeness(0) == 54);
        assert(den * (0 + 1) == den) by (nonlinear_arith);
    }
}

/// The nearest count of a value given by its whole part and its fraction.
proof fn lemma_rounded_parts(whole: nat, fraction: nat, den: nat)
    requires
        fraction < den,
    ensures
        rounded_count(whole * den + fraction, den) == if whole >= 65535 {
            65535
        } else if (den - fraction) * twos(closeness(whole) as nat) <= den {
            whole + 1
        } else {
            whole
        },
{
    let num = whole * den + fraction;
    lemma_near_count(num, den);
    assert(num / den == whole) by (nonlinear_arith)
        requires
            num == whole * den + fraction,
            0 <= fraction < den,
    ;
    assert(den * (whole + 1) - num == den - fraction) by (nonlinear_arith)
        requires
            num == whole * den + fraction,
    ;
}

/// What the first `ahead` digits denote, with zeros after the digits where there
/// are fewer.
fn whole_part(rest: &Vec<char>, ahead: usize) -> (r: u32)
    requires
        all_digits(rest@),
        ahead <= 5,
    ensures
        r < 100000,
        ahead <= rest@.len() ==> r == digits_value(rest@.take(ahead as int)),
        ahead > rest@.len() ==> r == digits_value(rest@) * tens((ahead - rest@.len()) as nat),
{
    let mut whole: u32 = 0;
    let mut i: usize = 0;
    assert(rest@.take(0) =~= Seq::<char>::empty());
    assert(tens(5) == 100000) by {
        reveal_with_fuel(tens, 6);
    }
    while i < ahead && i < rest.len()
        invariant
            i <= ahead <= 5,
            i <= rest.len(),
            all_digits(rest@),
            whole == digits_value(rest@.take(i as int)),
            whole < tens(i as nat),
            tens(5) == 100000,
        decreases ahead - i,
    {
        assert(is_digit(rest@[i as int]));
        assert(rest@.take(i + 1).drop_last() =~= rest@.take(i as int));
        proof {
            lemma_tens_grow((i + 1) as nat, 5);
        }
        let c: char = rest[i];
        whole = whole * 10 + (c as u32 - '0' as u32);
        i += 1;
    }
    proof {
        lemma_tens_grow(i as nat, 5);
        if ahead > rest@.len() {
            assert(rest@.take(i as int) =~= rest@);
            assert(digits_value(rest@) * 1 == digits_value(rest@));
        }
    }
    while i < ahead
        invariant
            i <= ahead <= 5,
            ahead > rest@.len() ==> i >= rest@.len() && whole == digits_value(rest@) * tens(
                (i - rest@.len()) as nat,
            ),
            ahead <= rest@.len() ==> i == ahead && whole == digits_value(rest@.take(ahead as int)),
            whole < tens(i as nat),
            tens(5) == 100000,
        decreases ahead - i,
    {
        proof {
            lemma_tens_grow((i + 1) as nat, 5);
            let v = digits_value(rest@);
            let t = tens((i - rest@.len()) as nat);
            assert((v * t) * 10 == v * (10 * t)) by (nonlinear_arith);
        }
        whole = whole * 10;
        i += 1;
    }
    proof {
        lemma_tens_grow(i as nat, 5);
    }
    whole
}

/// The count of digits of which the first `ahead` stand before the point.
fn count_near(rest: &Vec<char>, ahead: usize) -> (r: u16)
    requires
        all_digits(rest@),
        ahead <= 5,
    ensures
        ahead >= rest@.len() ==> r == rounded_count(
            digits_value(rest@) * tens((ahead - rest@.len()) as nat),
            1,
        ),
        ahead < rest@.len() ==> r == rounded_count(
            digits_value(rest@),
            tens((rest@.len() - ahead) as nat),
        ),
{
    let whole: u32 = whole_part(rest, ahead);
    let ghost tail = rest@.skip(ahead as int);
    proof {
        if ahead >= rest@.len() {
            if ahead == rest@.len() {
                assert(rest@.take(ahead as int) =~= rest@);
                assert(digits_value(rest@) * 1 == digits_value(rest@));
            }
            lemma_rounded_parts(whole as nat, 0, 1);
            assert(whole as nat * 1 + 0 == whole);
        } else {
            assert(rest@ =~= rest@.take(ahead as int) + tail);
            lemma_digits_concat(rest@.take(ahead as int), tail);
            assert forall|j: int| 0 <= j < tail.len() implies is_digit(#[trigger] tail[j]) by {
                assert(is_digit(rest@[j + ahead]));
            }
            lemma_digits_bound(tail);
            lemma_rounded_parts(whole as nat, digits_value(tail), tens(tail.len()));
        }
    }
    if whole >= 65535 {
        return 65535;
    }
    assert(twos(16) == 65536) by {
        reveal_with_fuel(twos, 17);
    }
    let bits: u32 = closeness_of(whole, 16);
    if ahead >= rest.len() {
        proof {
            lemma_twos_grow(1, bits as nat);
            assert(twos(1) == 2) by {
                reveal_with_fuel(twos, 2);
            }
            assert((1 - 0) * twos(bits as nat) == twos(bits as nat)) by (nonlinear_arith);
            assert(rounded_count(whole as nat, 1) == whole);
        }
        return whole as u16;
    }
    let fraction = fraction_digits(rest, ahead);
    if nearly_one(fraction, bits) {
        (whole + 1) as u16
    } else {
        whole as u16
    }
}

/// The count of digits with a decimal point after the first `point` of them,
/// where a negative `point` stands for zeros after the decimal point, and one
/// beyond the digits for zeros before it.
fn count_digits(digits: &Vec<char>, point: i128) -> (r: u16)
    requires
        all_digits(digits@),
        digits@.len() > 0,
        -2 * EXPONENT_LIMIT <= point <= 2 * EXPONENT_LIMIT,
    ensures
        r == numeral_count(
            Numeral {
                negative: false,
                digits: digits@,
                exponent: point - digits@.len(),
            },
        ),
{
    let mut zeros: usize = 0;
    while zeros < digits.len() && digits[zeros] == '0'
        invariant
            zeros <= digits.len(),
            forall|i: int| 0 <= i < zeros ==> digits@[i] == '0',
        decreases digits.len() - zeros,
    {
        zeros += 1;
    }
    let rest = part(digits, zeros, digits.len());
    let ghost n = rest@.len();
    let ghost value = digits_value(digits@);
    let ghost exponent = point - digits@.len();
    let ghost num = if exponent >= 0 {
        value * tens(exponent as nat)
    } else {
        value
    };
    let ghost den = if exponent >= 0 {
        1
    } else {
        tens((-exponent) as nat)
    };
    proof {
        assert(rest@ =~= digits@.skip(zeros as int));
        lemma_leading_zeros(digits@, zeros as int);
        assert(all_digits(rest@)) by {
            assert forall|i: int| 0 <= i < rest@.len() implies is_digit(#[trigger] rest@[i]) by {
                assert(is_digit(digits@[i + zeros]));
            }
        }
        lemma_tens_grow(0, if exponent >= 0 { exponent as nat } else { (-exponent) as nat });
        lemma_rounded_extremes(num, den);
        lemma_digits_bound(rest@);
    }
    if rest.len() == 0 {
        assert(value == 0);
        assert(exponent >= 0 ==> 0 * tens(exponent as nat) == 0);
        return 0;
    }
    proof {
        lemma_digits_least(rest@);
    }
    let shift: i128 = point - zeros as i128;
    if shift > 5 {
        proof {
            assert(tens(5) == 100000) by {
                reveal_with_fuel(tens, 6);
            }
            let lead = (n - 1) as nat;
            if exponent >= 0 {
                lemma_tens_add(lead, exponent as nat);
                lemma_tens_grow(5, lead + exponent as nat);
                assert(value * tens(exponent as nat) >= tens(lead) * tens(exponent as nat))
                    by (nonlinear_arith)
                    requires
                        value >= tens(lead),
                ;
            } else {
                let down = (-exponent) as nat;
                lemma_tens_grow(5 + down, lead);
                lemma_tens_add(5, down);
            }
        }
        return 65535;
    }
    if shift < 0 {
        proof {
            let down = (-exponent) as nat;
            lemma_tens_grow(n + 1, down);
            assert(tens(n + 1) == 10 * tens(n));
        }
        return 0;
    }
    count_near(&rest, shift as usize)
}

/// Exponents far from 0 give the same count.
proof fn lemma_far_exponents(digits: Seq<char>, a: int, b: int)
    requires
        all_digits(digits),
        (a >= 5 && b >= 5) || (a <= -(digits.len() + 1) && b <= -(digits.len() + 1)),
    ensures
        numeral_count(Numeral { negative: false, digits, exponent: a }) == numeral_count(
            Numeral { negative: false, digits, exponent: b },
        ),
{
    lemma_far_exponent(digits, a);
    lemma_far_exponent(digits, b);
}

proof fn lemma_far_exponent(digits: Seq<char>, a: int)
    requires
        all_digits(digits),
        a >= 5 || a <= -(digits.len() + 1),
    ensures
        numeral_count(Numeral { negative: false, digits, exponent: a }) == if a >= 5
            && digits_value(digits) > 0 {
            65535nat
        } else {
            0nat
        },
{
    let value = digits_value(digits);
    if a >= 5 {
        let t = tens(a as nat);
        reveal_with_fuel(tens, 6);
        lemma_tens_grow(5, a as nat);
        lemma_rounded_extremes(value * t, 1);
        if value > 0 {
            assert(value * t >= t) by (nonlinear_arith)
                requires
                    value >= 1,
            ;
        } else {
            assert(0 * t == 0);
        }
    } else {
        let down = (-a) as nat;
        lemma_digits_bound(digits);
        lemma_tens_grow((digits.len() + 1) as nat, down);
        assert(tens((digits.len() + 1) as nat) == 10 * tens(digits.len()));
        lemma_rounded_extremes(value, tens(down));
    }
}

/// Read a decimal numeral as a count.
pub fn read_count(chars: &Vec<char>) -> (r: Option<u16>)
    ensures
        match count_of(chars@) {
            Some(n) => r is Some && r->0 == n,
            None => r is None,
        },
{
    let signed: bool = chars.len() > 0 && (chars[0] == '+' || chars[0] == '-');
    let from: usize = if signed {
        1
    } else {
        0
    };
    let body = part(chars, from, chars.len());
    proof {
        assert(chars@.subrange(0, chars@.len() as int) =~= chars@);
        if signed {
            assert(chars@.subrange(1, chars@.len() as int) =~= chars@.drop_first());
        }
        assert(body@.skip(0) =~= body@);
    }
    read_unsigned(&body, signed && chars[0] == '-')
}

/// Read a numeral without its sign as a count.
fn read_unsigned(body: &Vec<char>, negative: bool) -> (r: Option<u16>)
    ensures
        match unsigned_numeral(negative, body@) {
            Some(n) => r is Some && r->0 == numeral_count(n),
            None => r is None,
        },
{
    assert(body@.skip(0) =~= body@);
    let lower: usize = find_char(body, 0, 'e');
    let upper: usize = find_char(body, 0, 'E');
    let mark: usize = if lower < upper {
        lower
    } else {
        upper
    };
    let mantissa = part(body, 0, mark);
    assert(mantissa@ =~= body@.take(mark as int));
    assert(mantissa@.skip(0) =~= mantissa@);
    let point: usize = find_char(&mantissa, 0, '.');
    let whole = part(&mantissa, 0, point);
    assert(whole@ =~= mantissa@.take(point as int));
    let fraction = if point < mantissa.len() {
        part(&mantissa, point + 1, mantissa.len())
    } else {
        Vec::new()
    };
    assert(fraction@ =~= if point < mantissa@.len() {
        mantissa@.skip(point + 1)
    } else {
        seq![]
    });
    let power: i128 = if mark < body.len() {
        let tail = part(body, mark + 1, body.len());
        assert(tail@ =~= body@.skip(mark + 1));
        match read_exponent(&tail) {
            Some(e) => e,
            None => return None,
        }
    } else {
        0
    };
    if !only_digits(&whole) || !only_digits(&fraction) || (whole.len() == 0 && fraction.len() == 0) {
        return None;
    }
    if negative {
        return Some(0);
    }
    let digits = joined(&whole, &fraction);
    proof {
        let exact = if mark < body@.len() {
            integer_value(body@.skip(mark + 1))->0
        } else {
            0
        };
        if exact != power {
            lemma_far_exponents(digits@, exact - fraction@.len(), power - fraction@.len());
        }
    }
    Some(count_digits(&digits, whole.len() as i128 + power))
}

/// Two runs of digits, one after the other.
fn joined(left: &Vec<char>, right: &Vec<char>) -> (r: Vec<char>)
    requires
        all_digits(left@),
        all_digits(right@),
    ensures
        r@ == left@ + right@,
        all_digits(r@),
{
    let mut out = part(left, 0, left.len());
    let mut i: usize = 0;
    assert(out@ =~= left@ + right@.take(0));
    while i < right.len()
        invariant
            i <= right.len(),
            out@ == left@ + right@.take(i as int),
        decreases right.len() - i,
    {
        out.push(right[i]);
        i += 1;
        assert(out@ =~= left@ + right@.take(i as int));
    }
    assert(right@.take(i as int) =~= right@);
    assert forall|j: int| 0 <= j < out@.len() implies is_digit(#[trigger] out@[j]) by {
        if j < left@.len() {
            assert(is_digit(left@[j]));
        } else {
            assert(is_digit(right@[j - left@.len()]));
        }
    }
    out
}

// ---------------------------------------------------------------------
// Laws
// ---------------------------------------------------------------------

proof fn lemma_closeness_large(whole: nat, width: nat)
    requires
        whole < twos(width),
    ensures
        closeness(whole) >= 54 - width,
    decreases width,
{
    if whole > 0 {
        lemma_closeness_large(whole / 2, (width - 1) as nat);
    }
}

proof fn lemma_absent(s: Seq<char>, c: char)
    requires
        forall|i: int| 0 <= i < s.len() ==> s[i] != c,
    ensures
        first_index(s, c) == s.len(),
{
    lemma_first_index(s, c, s.len() as int);
}

/// A plain decimal numeral stands for its number, held at 65535.
pub proof fn law_plain_numeral_counts(n: nat)
    ensures
        count_of(decimal(n)) == Some(
            if n < 65535 {
                n
            } else {
                65535
            },
        ),
{
    let s = decimal(n);
    law_decimal_reads_back(n);
    assert(is_digit(s[0]));
    assert forall|i: int| 0 <= i < s.len() implies s[i] != 'e' && s[i] != 'E' && s[i] != '.' by {
        assert(is_digit(s[i]));
    }
    lemma_absent(s, 'e');
    lemma_absent(s, 'E');
    lemma_absent(s, '.');
    assert(s.take(s.len() as int) =~= s);
    assert(s + Seq::<char>::empty() =~= s);
    assert(numeral(s) == Some(Numeral { negative: false, digits: s, exponent: 0 }));
    assert(n * tens(0) == n);
    lemma_rounded_parts(n, 0, 1);
    assert(n * 1 + 0 == n);
    if n < 65535 {
        assert(twos(16) == 65536) by {
            reveal_with_fuel(twos, 17);
        }
        lemma_closeness_large(n, 16);
        lemma_twos_grow(1, closeness(n) as nat);
        assert(twos(1) == 2) by {
            reveal_with_fuel(twos, 2);
        }
    }
}

/// A count fits in 16 bits.
pub proof fn lemma_count_fits(s: Seq<char>)
    requires
        count_of(s) is Some,
    ensures
        0 <= count_of(s)->0 <= 65535,
{
    reveal(rounded_count);
    let n = numeral(s)->0;
    let value = digits_value(n.digits);
    lemma_twos_grow(0, 1074);
    if n.exponent >= 0 {
        lemma_floor(rounded(value * tens(n.exponent as nat) * one_units(), 1));
    } else {
        lemma_floor(rounded(value * one_units(), tens((-n.exponent) as nat)));
    }
}

proof fn lemma_floor(x: Binary64)
    ensures
        x.rounded_down() >= 0,
{
    lemma_twos_grow(0, 1074);
    vstd::arithmetic::div_mod::lemma_div_pos_is_pos(x.in_units() as int, one_units() as int);
}

/// A numeral is read by its parts: the digits before and after the point are its digits, the point
/// moves it down by as many powers of ten as there are digits after it, the exponent behind either
/// mark moves it up or down, and a minus sign makes it negative.
pub proof fn law_numerals_are_read_by_their_parts(
    whole: Seq<char>,
    fraction: Seq<char>,
    mark: char,
    exponent: Seq<char>,
    k: int,
    s: Seq<char>,
)
    requires
        all_digits(whole),
        all_digits(fraction),
        whole.len() > 0,
        mark == 'e' || mark == 'E',
        integer_value(exponent) == Some(k),
        s == whole + seq!['.'] + fraction + seq![mark] + exponent,
    ensures
        ({
            let digits = whole + fraction;
            let places = k - fraction.len();
            &&& numeral(s) == Some(Numeral { negative: false, digits, exponent: places })
            &&& numeral(seq!['+'] + s) == Some(Numeral { negative: false, digits, exponent: places })
            &&& numeral(seq!['-'] + s) == Some(Numeral { negative: true, digits, exponent: places })
        }),
        count_of(seq!['-'] + s) == Some(0nat),
{
    let n = (whole.len() + 1 + fraction.len()) as int;
    let mantissa = whole + seq!['.'] + fraction;
    law_signs_of_numerals(0, exponent);
    assert(is_digit(whole[0]));
    assert forall|j: int| 0 <= j < s.len() && j != n implies s[j] != 'e' && s[j] != 'E' by {
        if j < whole.len() {
            assert(s[j] == whole[j]);
            assert(is_digit(whole[j]));
        } else if whole.len() < j < n {
            assert(s[j] == fraction[j - whole.len() - 1]);
            assert(is_digit(fraction[j - whole.len() - 1]));
        } else if j > n {
            assert(s[j] == exponent[j - n - 1]);
            if j > n + 1 {
                assert(is_digit(exponent[j - n - 1]));
            }
        }
    }
    assert(s[n] == mark);
    if mark == 'e' {
        lemma_first_index(s, 'e', n);
        lemma_absent(s, 'E');
    } else {
        lemma_first_index(s, 'E', n);
        lemma_absent(s, 'e');
    }
    assert(s.take(n) =~= mantissa);
    assert forall|j: int| 0 <= j < whole.len() implies mantissa[j] != '.' by {
        assert(is_digit(whole[j]));
    }
    lemma_first_index(mantissa, '.', whole.len() as int);
    assert(mantissa.take(whole.len() as int) =~= whole);
    assert(mantissa.skip((whole.len() + 1) as int) =~= fraction);
    assert(s.skip(n + 1) =~= exponent);
    assert(s[0] == whole[0]);
    assert((seq!['-'] + s).drop_first() =~= s);
    assert((seq!['+'] + s).drop_first() =~= s);
}

/// A numeral without an exponent is read by its digits and its point alone, and one without a point
/// either is its digits.
pub proof fn law_exponents_and_points_can_be_left_out(whole: Seq<char>, fraction: Seq<char>)
    requires
        all_digits(whole),
        all_digits(fraction),
        whole.len() > 0,
    ensures
        numeral(whole + seq!['.'] + fraction) == Some(
            Numeral {
                negative: false,
                digits: whole + fraction,
                exponent: -(fraction.len() as int),
            },
        ),
        numeral(whole) == Some(Numeral { negative: false, digits: whole, exponent: 0 }),
{
    let s = whole + seq!['.'] + fraction;
    assert(is_digit(whole[0]));
    assert(s[0] == whole[0]);
    assert forall|j: int| 0 <= j < s.len() implies s[j] != 'e' && s[j] != 'E' by {
        if j < whole.len() {
            assert(s[j] == whole[j]);
            assert(is_digit(whole[j]));
        } else if j > whole.len() {
            assert(s[j] == fraction[j - whole.len() - 1]);
            assert(is_digit(fraction[j - whole.len() - 1]));
        }
    }
    lemma_absent(s, 'e');
    lemma_absent(s, 'E');
    assert(s.take(s.len() as int) =~= s);
    assert forall|j: int| 0 <= j < whole.len() implies s[j] != '.' by {
        assert(is_digit(whole[j]));
    }
    lemma_first_index(s, '.', whole.len() as int);
    assert(s.take(whole.len() as int) =~= whole);
    assert(s.skip((whole.len() + 1) as int) =~= fraction);
    assert forall|j: int| 0 <= j < whole.len() implies whole[j] != 'e' && whole[j] != 'E' && whole[j]
        != '.' by {
        assert(is_digit(whole[j]));
    }
    lemma_absent(whole, 'e');
    lemma_absent(whole, 'E');
    lemma_absent(whole, '.');
    assert(whole.take(whole.len() as int) =~= whole);
    assert(whole + Seq::<char>::empty() =~= whole);
}

/// A count is the number that a numeral stands for, to the nearest binary64 number, without its
/// fraction, and at most 65535.
pub proof fn law_counts_are_cut_and_held(digits: Seq<char>, places: nat)
    ensures
        ({
            let n = Numeral { negative: false, digits, exponent: -(places as int) };
            let value = rounded(digits_value(digits) * one_units(), tens(places));
            numeral_count(n) == vstd::math::min(value.rounded_down(), 65535)
        }),
        ({
            let n = Numeral { negative: false, digits, exponent: places as int };
            let value = rounded(digits_value(digits) * tens(places) * one_units(), 1);
            numeral_count(n) == vstd::math::min(value.rounded_down(), 65535)
        }),
{
    reveal(rounded_count);
    reveal_with_fuel(tens, 1);
    lemma_floor(rounded(digits_value(digits) * one_units(), tens(places)));
    lemma_floor(rounded(digits_value(digits) * tens(places) * one_units(), 1));
    if places == 0 {
        assert(tens(0) == 1);
        assert(digits_value(digits) * 1 == digits_value(digits));
    }
}

} // verus!
