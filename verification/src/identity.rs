//! VM identifiers, from the `uuid` crate.

use uuid::Uuid;
use vstd::prelude::*;

use crate::powers::{lemma_twos_add, lemma_twos_grow, twos};

verus! {

/// The lower-case hexadecimal digit of a number below 16.
pub open spec fn hex_digit(n: int) -> char {
    if n < 10 {
        (('0' as u32) + n) as char
    } else {
        (('a' as u32) + (n - 10)) as char
    }
}

/// The hexadecimal digit of a UUID at a place counted from the most significant
/// one.
pub open spec fn uuid_digit(uuid: u128, place: int) -> char {
    hex_digit((uuid as int / twos((4 * (31 - place)) as nat) as int) % 16)
}

/// The hyphenated text of a UUID: 32 digits, most significant first, in groups of
/// 8, 4, 4, 4 and 12.
pub open spec fn hyphenated(uuid: u128) -> Seq<char> {
    Seq::new(
        36,
        |i: int|
            if i == 8 || i == 13 || i == 18 || i == 23 {
                '-'
            } else if i < 8 {
                uuid_digit(uuid, i)
            } else if i < 13 {
                uuid_digit(uuid, i - 1)
            } else if i < 18 {
                uuid_digit(uuid, i - 2)
            } else if i < 23 {
                uuid_digit(uuid, i - 3)
            } else {
                uuid_digit(uuid, i - 4)
            },
    )
}

/// Calls `Uuid::from_u128` and the `Display` of the UUID. Claims that the text is
/// the hyphenated one, in lower case, most significant digit first.
#[verifier::external_body]
pub(crate) fn uuid_text(uuid: u128) -> (r: String)
    ensures
        r@ == hyphenated(uuid),
{
    Uuid::from_u128(uuid).to_string()
}

/// The low bits of a number are those of its hexadecimal digits.
proof fn lemma_digits_determine(a: int, b: int, n: nat)
    requires
        0 <= a < twos(4 * n),
        0 <= b < twos(4 * n),
        forall|k: int|
            0 <= k < n ==> (a / #[trigger] twos((4 * k) as nat) as int) % 16 == (b / twos(
                (4 * k) as nat,
            ) as int) % 16,
    ensures
        a == b,
    decreases n,
{
    reveal_with_fuel(twos, 5);
    if n > 0 {
        let m = (n - 1) as nat;
        assert(twos(4 * n) == 16 * twos(4 * m));
        assert((a / twos(0) as int) % 16 == (b / twos(0) as int) % 16) by {
            assert((4 * 0int) as nat == 0);
            assert(twos((4 * 0int) as nat) == 1);
        }
        assert(a / 1 == a && b / 1 == b);
        assert(a % 16 == b % 16);
        assert forall|k: int| 0 <= k < m implies ((a / 16) / #[trigger] twos((4 * k) as nat) as int)
            % 16 == ((b / 16) / twos((4 * k) as nat) as int) % 16 by {
            let t = twos((4 * k) as nat) as int;
            assert(twos((4 * (k + 1)) as nat) == 16 * t);
            lemma_twos_grow(0, (4 * k) as nat);
            vstd::arithmetic::div_mod::lemma_div_denominator(a, 16, t);
            vstd::arithmetic::div_mod::lemma_div_denominator(b, 16, t);
            assert((a / twos((4 * (k + 1)) as nat) as int) % 16 == (b / twos(
                (4 * (k + 1)) as nat,
            ) as int) % 16);
        }
        lemma_digits_determine(a / 16, b / 16, m);
    }
}

proof fn lemma_twos_square(n: nat, power: nat)
    requires
        twos(n) == power,
    ensures
        twos(2 * n) == power * power,
{
    lemma_twos_add(n, n);
}

proof fn lemma_hex_digit(m: int, n: int)
    requires
        0 <= m < 16,
        0 <= n < 16,
        hex_digit(m) == hex_digit(n),
    ensures
        m == n,
{
}

/// Different UUIDs have different texts.
pub proof fn law_uuid_text_distinct(a: u128, b: u128)
    requires
        hyphenated(a) == hyphenated(b),
    ensures
        a == b,
{
    assert forall|k: int| 0 <= k < 32 implies (a as int / #[trigger] twos((4 * k) as nat) as int)
        % 16 == (b as int / twos((4 * k) as nat) as int) % 16 by {
        let place = 31 - k;
        let i = if place < 8 {
            place
        } else if place < 12 {
            place + 1
        } else if place < 16 {
            place + 2
        } else if place < 20 {
            place + 3
        } else {
            place + 4
        };
        assert(hyphenated(a)[i] == uuid_digit(a, place));
        assert(hyphenated(b)[i] == uuid_digit(b, place));
        lemma_hex_digit(
            (a as int / twos((4 * k) as nat) as int) % 16,
            (b as int / twos((4 * k) as nat) as int) % 16,
        );
    }
    assert(twos(128) == 0x1_0000_0000_0000_0000_0000_0000_0000_0000) by {
        assert(twos(16) == 0x1_0000) by {
            reveal_with_fuel(twos, 17);
        }
        lemma_twos_square(16, 0x1_0000);
        lemma_twos_square(32, 0x1_0000_0000);
        lemma_twos_square(64, 0x1_0000_0000_0000_0000);
    }
    lemma_digits_determine(a as int, b as int, 32);
}

} // verus!
