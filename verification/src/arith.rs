//! Facts about floor division and products that the pricing proofs share.

use vstd::prelude::*;

verus! {

/// Floor division brackets its dividend: `(a / d) * d <= a < (a / d + 1) * d`.
pub proof fn lemma_div_floor(a: int, d: int)
    by (nonlinear_arith)
    requires
        a >= 0,
        d > 0,
    ensures
        0 <= a / d,
        (a / d) * d <= a,
        a < (a / d + 1) * d,
{
}

/// A dividend below `b * d` has a quotient below `b`.
pub proof fn lemma_div_below(a: int, d: int, b: int)
    requires
        a >= 0,
        d > 0,
        a < b * d,
    ensures
        a / d < b,
{
    lemma_div_floor(a, d);
    let q: int = a / d;
    assert(q < b) by (nonlinear_arith)
        requires
            q * d <= a,
            a < b * d,
            d > 0,
    ;
}

/// A dividend of at most `b * d` has a quotient of at most `b`.
pub proof fn lemma_div_at_most(a: int, d: int, b: int)
    requires
        a >= 0,
        d > 0,
        a <= b * d,
    ensures
        a / d <= b,
{
    lemma_div_floor(a, d);
    let q: int = a / d;
    assert(q <= b) by (nonlinear_arith)
        requires
            q * d <= a,
            a <= b * d,
            d > 0,
    ;
}

/// A dividend of at least `b * d` has a quotient of at least `b`.
pub proof fn lemma_div_at_least(a: int, d: int, b: int)
    requires
        a >= 0,
        d > 0,
        b * d <= a,
    ensures
        b <= a / d,
{
    lemma_div_floor(a, d);
    let q: int = a / d;
    assert(b <= q) by (nonlinear_arith)
        requires
            a < (q + 1) * d,
            b * d <= a,
            d > 0,
    ;
}

/// The product of two 64-bit values fits 128 bits.
pub proof fn lemma_mul_u64_fits(a: u64, b: u64)
    ensures
        a * b <= 0xffff_ffff_ffff_fffe_0000_0000_0000_0001,
        a * b <= u128::MAX,
{
    assert(a * b <= 0xffff_ffff_ffff_ffff * 0xffff_ffff_ffff_ffff) by (nonlinear_arith)
        requires
            0 <= a <= 0xffff_ffff_ffff_ffff,
            0 <= b <= 0xffff_ffff_ffff_ffff,
    ;
}

/// A part of an amount, pro rata: `amount * part / whole`, rounded down, is
/// within the amount for a part within the whole, and is the whole amount
/// exactly when the part is the whole.
pub proof fn lemma_pro_rata(amount: int, part: int, whole: int)
    requires
        amount >= 0,
        0 <= part <= whole,
        whole > 0,
    ensures
        0 <= amount * part / whole <= amount,
        (amount * part / whole) * whole <= amount * part,
        amount * part < (amount * part / whole + 1) * whole,
        part == whole ==> amount * part / whole == amount,
        part < whole && amount > 0 ==> amount * part / whole < amount,
{
    assert(0 <= amount * part <= amount * whole) by (nonlinear_arith)
        requires
            amount >= 0,
            0 <= part <= whole,
    ;
    lemma_div_floor(amount * part, whole);
    lemma_div_at_most(amount * part, whole, amount);
    if part == whole {
        lemma_div_at_least(amount * part, whole, amount);
    } else if amount > 0 {
        assert(amount * part < amount * whole) by (nonlinear_arith)
            requires
                amount > 0,
                part < whole,
        ;
        lemma_div_below(amount * part, whole, amount);
    }
}

} // verus!
