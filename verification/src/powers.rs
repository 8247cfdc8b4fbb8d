//! Powers of ten and of two.

use vstd::prelude::*;

verus! {

/// 10 to the power `n`.
pub open spec fn tens(n: nat) -> nat
    decreases n,
{
    if n == 0 {
        1
    } else {
        10 * tens((n - 1) as nat)
    }
}

/// 2 to the power `n`.
pub open spec fn twos(n: nat) -> nat
    decreases n,
{
    if n == 0 {
        1
    } else {
        2 * twos((n - 1) as nat)
    }
}

/// Powers of 10 multiply by adding their exponents.
pub proof fn lemma_tens_add(a: nat, b: nat)
    ensures
        tens(a + b) == tens(a) * tens(b),
        tens(a) >= 1,
    decreases a,
{
    if a > 0 {
        lemma_tens_add((a - 1) as nat, b);
        let t = tens((a - 1) as nat);
        assert(10 * (t * tens(b)) == (10 * t) * tens(b)) by (nonlinear_arith);
        assert((a + b - 1) as nat == (a - 1) as nat + b);
    } else {
        assert(1 * tens(b) == tens(b));
    }
}

/// Powers of 10 grow with the exponent.
pub proof fn lemma_tens_grow(a: nat, b: nat)
    requires
        a <= b,
    ensures
        1 <= tens(a) <= tens(b),
{
    lemma_tens_add(a, (b - a) as nat);
    lemma_tens_add((b - a) as nat, a);
    assert(tens(a) <= tens(a) * tens((b - a) as nat)) by (nonlinear_arith)
        requires
            tens((b - a) as nat) >= 1,
            tens(a) >= 1,
    ;
}

/// Powers of 2 grow with the exponent.
pub proof fn lemma_twos_grow(a: nat, b: nat)
    requires
        a <= b,
    ensures
        1 <= twos(a) <= twos(b),
    decreases b,
{
    if a < b {
        lemma_twos_grow(a, (b - 1) as nat);
    } else if a > 0 {
        lemma_twos_grow((a - 1) as nat, (b - 1) as nat);
    }
}

/// Powers of 2 multiply by adding their exponents.
pub proof fn lemma_twos_add(a: nat, b: nat)
    ensures
        twos(a + b) == twos(a) * twos(b),
    decreases a,
{
    if a > 0 {
        lemma_twos_add((a - 1) as nat, b);
        let t = twos((a - 1) as nat);
        assert(2 * (t * twos(b)) == (2 * t) * twos(b)) by (nonlinear_arith);
        assert((a + b - 1) as nat == (a - 1) as nat + b);
    } else {
        assert(1 * twos(b) == twos(b));
    }
}

} // verus!
