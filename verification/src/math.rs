//! Powers of two and ten.
use vstd::prelude::*;

verus! {

/// Ten to the power `n`.
pub open spec fn ten(n: nat) -> nat
    decreases n,
{
    if n == 0 {
        1
    } else {
        10 * ten((n - 1) as nat)
    }
}

/// Two to the power `n`.
pub open spec fn two(n: nat) -> nat
    decreases n,
{
    if n == 0 {
        1
    } else {
        2 * two((n - 1) as nat)
    }
}

pub proof fn lemma_ten_adds(a: nat, b: nat)
    ensures
        ten(a + b) == ten(a) * ten(b),
    decreases a,
{
    if a > 0 {
        lemma_ten_adds((a - 1) as nat, b);
        let x = ten((a - 1) as nat) as int;
        let y = ten(b) as int;
        assert(10 * (x * y) == (10 * x) * y) by (nonlinear_arith);
    } else {
        assert(1 * ten(b) == ten(b));
    }
}

pub proof fn lemma_ten_positive(n: nat)
    ensures
        ten(n) >= 1,
    decreases n,
{
    if n > 0 {
        lemma_ten_positive((n - 1) as nat);
    }
}

pub proof fn lemma_two_positive(n: nat)
    ensures
        two(n) >= 1,
    decreases n,
{
    if n > 0 {
        lemma_two_positive((n - 1) as nat);
    }
}

pub proof fn lemma_ten_mono(a: nat, b: nat)
    requires
        a <= b,
    ensures
        ten(a) <= ten(b),
    decreases b,
{
    if a < b {
        lemma_ten_mono(a, (b - 1) as nat);
        lemma_ten_positive((b - 1) as nat);
    }
}

pub proof fn lemma_two_mono(a: nat, b: nat)
    requires
        a <= b,
    ensures
        two(a) <= two(b),
    decreases b,
{
    if a < b {
        lemma_two_mono(a, (b - 1) as nat);
        lemma_two_positive((b - 1) as nat);
    }
}

pub proof fn lemma_two_adds(a: nat, b: nat)
    ensures
        two(a + b) == two(a) * two(b),
    decreases a,
{
    if a > 0 {
        lemma_two_adds((a - 1) as nat, b);
        let x = two((a - 1) as nat) as int;
        let y = two(b) as int;
        assert(2 * (x * y) == (2 * x) * y) by (nonlinear_arith);
    } else {
        assert(1 * two(b) == two(b));
    }
}

} // verus!
