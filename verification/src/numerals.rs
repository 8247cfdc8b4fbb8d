//! Decimal numerals: writing unsigned numbers and reading 32-bit integers.

use vstd::prelude::*;
use vstd::string::StringExecFns;

verus! {

/// The character of a decimal digit.
pub open spec fn digit(n: nat) -> char {
    (('0' as u32) + n) as char
}

/// The decimal numeral of a natural number, without leading zeros.
pub open spec fn decimal(n: nat) -> Seq<char>
    decreases n,
{
    if n < 10 {
        seq![digit(n)]
    } else {
        decimal(n / 10).push(digit(n % 10))
    }
}

/// The decimal numeral of an integer, with a minus sign when negative.
pub open spec fn signed_decimal(n: int) -> Seq<char> {
    if n < 0 {
        seq!['-'] + decimal((-n) as nat)
    } else {
        decimal(n as nat)
    }
}

/// Whether a character is an ASCII decimal digit.
pub open spec fn is_digit(c: char) -> bool {
    '0' <= c <= '9'
}

/// Whether every character is an ASCII decimal digit.
pub open spec fn all_digits(s: Seq<char>) -> bool {
    forall|i: int| 0 <= i < s.len() ==> is_digit(#[trigger] s[i])
}

/// The number that a sequence of digits denotes.
pub open spec fn digits_value(s: Seq<char>) -> nat
    decreases s.len(),
{
    if s.len() == 0 {
        0
    } else {
        digits_value(s.drop_last()) * 10 + (s.last() as u32 - '0' as u32) as nat
    }
}

/// The integer that a numeral with an optional sign denotes, if it is one.
pub open spec fn integer_value(s: Seq<char>) -> Option<int> {
    let signed = s.len() > 0 && (s[0] == '+' || s[0] == '-');
    let digits = if signed {
        s.drop_first()
    } else {
        s
    };
    if digits.len() > 0 && all_digits(digits) {
        if signed && s[0] == '-' {
            Some(-(digits_value(digits) as int))
        } else {
            Some(digits_value(digits) as int)
        }
    } else {
        None
    }
}

fn digit_char(n: u64) -> (r: char)
    requires
        n < 10,
    ensures
        r == digit(n as nat),
{
    match n {
        0 => '0',
        1 => '1',
        2 => '2',
        3 => '3',
        4 => '4',
        5 => '5',
        6 => '6',
        7 => '7',
        8 => '8',
        _ => '9',
    }
}

/// Write a number in decimal.
pub fn decimal_text(n: u64) -> (r: String)
    ensures
        r@ == decimal(n as nat),
    decreases n,
{
    if n < 10 {
        let mut out: String = String::new();
        out.push(digit_char(n));
        assert(out@ =~= seq![digit(n as nat)]);
        out
    } else {
        let mut out: String = decimal_text(n / 10);
        out.push(digit_char(n % 10));
        out
    }
}

/// Write a 32-bit signed number in decimal.
pub fn signed_text(n: i32) -> (r: String)
    ensures
        r@ == signed_decimal(n as int),
{
    if n < 0 {
        proof {
            reveal_strlit("-");
            assert("-"@ =~= seq!['-']);
        }
        let magnitude: u64 = (-(n as i64)) as u64;
        "-".to_owned().concat(decimal_text(magnitude).as_str())
    } else {
        decimal_text(n as u64)
    }
}

/// A numeral is at least as large as any prefix of it.
proof fn lemma_prefix_value(s: Seq<char>, n: int)
    requires
        0 <= n <= s.len(),
        all_digits(s),
    ensures
        digits_value(s.take(n)) <= digits_value(s),
    decreases s.len() - n,
{
    if n < s.len() {
        assert(all_digits(s.take(n + 1)));
        assert(s.take(n + 1).drop_last() =~= s.take(n));
        assert(s.take(n + 1).last() == s[n]);
        lemma_prefix_value(s, n + 1);
    } else {
        assert(s.take(n) =~= s);
    }
}

/// Read a 32-bit signed integer: an optional sign and at least one digit.
pub fn parse_i32(chars: &Vec<char>) -> (r: Option<i32>)
    ensures
        r == (match integer_value(chars@) {
            Some(n) => if i32::MIN <= n <= i32::MAX {
                Some(n as i32)
            } else {
                None
            },
            None => None,
        }),
{
    let signed: bool = chars.len() > 0 && (chars[0] == '+' || chars[0] == '-');
    let from: usize = if signed {
        1
    } else {
        0
    };
    let ghost digits = chars@.skip(from as int);
    proof {
        assert(chars@.skip(0) =~= chars@);
        if signed {
            assert(chars@.skip(1) =~= chars@.drop_first());
        }
    }
    if from == chars.len() {
        return None;
    }
    let mut i: usize = from;
    let mut value: u64 = 0;
    let mut too_large: bool = false;
    assert(digits.take(0) =~= Seq::<char>::empty());
    while i < chars.len()
        invariant
            from <= i <= chars.len(),
            from < chars.len(),
            signed == (chars.len() > 0 && (chars[0] == '+' || chars[0] == '-')),
            from == if signed { 1int } else { 0 },
            digits == if signed { chars@.drop_first() } else { chars@ },
            digits == chars@.skip(from as int),
            all_digits(digits.take(i - from)),
            !too_large ==> value == digits_value(digits.take(i - from)),
            !too_large ==> value <= 0x8000_0000,
            too_large ==> digits_value(digits.take(i - from)) > 0x8000_0000,
        decreases chars.len() - i,
    {
        let c: char = chars[i];
        assert(digits[i - from] == c);
        if !('0' <= c && c <= '9') {
            return None;
        }
        proof {
            let longer = digits.take(i - from + 1);
            assert(longer.drop_last() =~= digits.take(i - from));
            assert(longer.last() == c);
            assert forall|j: int| 0 <= j < longer.len() implies is_digit(#[trigger] longer[j]) by {
                if j < i - from {
                    assert(digits.take(i - from)[j] == longer[j]);
                }
            }
            lemma_prefix_value(longer, i - from);
            assert(longer.take(i - from) =~= digits.take(i - from));
        }
        if !too_large {
            value = value * 10 + (c as u32 - '0' as u32) as u64;
            if value > 0x8000_0000 {
                too_large = true;
            }
        }
        i += 1;
    }
    assert(digits.take(i - from) =~= digits);
    if too_large {
        return None;
    }
    if signed && chars[0] == '-' {
        Some((-(value as i64)) as i32)
    } else if value <= 0x7fff_ffff {
        Some(value as i32)
    } else {
        None
    }
}

/// The numeral of a number is made of digits that denote the number.
pub proof fn law_decimal_reads_back(n: nat)
    ensures
        decimal(n).len() > 0,
        all_digits(decimal(n)),
        digits_value(decimal(n)) == n,
    decreases n,
{
    reveal_with_fuel(digits_value, 2);
    if n < 10 {
        assert(decimal(n).drop_last() =~= Seq::<char>::empty());
        assert(decimal(n).last() == digit(n));
    } else {
        law_decimal_reads_back(n / 10);
        let head = decimal(n / 10);
        let whole = decimal(n);
        assert(whole.drop_last() =~= head);
        assert forall|i: int| 0 <= i < whole.len() implies is_digit(#[trigger] whole[i]) by {
            if i < head.len() {
                assert(whole[i] == head[i]);
            }
        }
    }
}

/// Different numbers have different numerals.
pub proof fn law_decimal_distinct(m: nat, n: nat)
    requires
        decimal(m) == decimal(n),
    ensures
        m == n,
{
    law_decimal_reads_back(m);
    law_decimal_reads_back(n);
}

/// A numeral may carry a sign, which decides on that of its value; a text that is not a sign and
/// digits, with at least one digit, is no numeral.
pub proof fn law_signs_of_numerals(n: nat, s: Seq<char>)
    ensures
        integer_value(decimal(n)) == Some(n as int),
        integer_value(seq!['+'] + decimal(n)) == Some(n as int),
        integer_value(seq!['-'] + decimal(n)) == Some(-(n as int)),
        integer_value(signed_decimal(-(n as int))) == Some(-(n as int)),
        integer_value(s) is Some ==> s.len() > 0 && is_digit(s.last()) && forall|i: int|
            0 < i < s.len() ==> is_digit(#[trigger] s[i]),
        integer_value(s) is Some ==> is_digit(s[0]) || s.len() > 1 && (s[0] == '+' || s[0] == '-'),
{
    law_decimal_reads_back(n);
    let d = decimal(n);
    assert(is_digit(d[0]));
    assert((seq!['+'] + d).drop_first() =~= d);
    assert((seq!['-'] + d).drop_first() =~= d);
    if integer_value(s) is Some {
        let signed = s[0] == '+' || s[0] == '-';
        let digits = if signed {
            s.drop_first()
        } else {
            s
        };
        assert forall|i: int| 0 < i < s.len() implies is_digit(#[trigger] s[i]) by {
            if signed {
                assert(is_digit(digits[i - 1]));
            } else {
                assert(is_digit(digits[i]));
            }
        }
        assert(is_digit(digits[digits.len() - 1]));
        assert(is_digit(digits[0]));
    }
}

/// One more digit multiplies the value by ten and adds the digit, and a zero in front of digits
/// does not change their value.
pub proof fn law_digits_have_their_places(s: Seq<char>, d: nat)
    requires
        d < 10,
    ensures
        digits_value(s.push(digit(d))) == 10 * digits_value(s) + d,
        digits_value(seq!['0'] + s) == digits_value(s),
    decreases s.len(),
{
    assert(s.push(digit(d)).drop_last() =~= s);
    if s.len() > 0 {
        law_digits_have_their_places(s.drop_last(), d);
        assert((seq!['0'] + s).drop_last() =~= seq!['0'] + s.drop_last());
        assert((seq!['0'] + s).last() == s.last());
    } else {
        reveal_with_fuel(digits_value, 2);
        assert(seq!['0'] + s =~= seq!['0']);
        assert(seq!['0'].drop_last() =~= Seq::<char>::empty());
    }
}

} // verus!
