//! What holds across the operations on a pool: the laws that relate one
//! quote to another and one state of a pool to the next.

use vstd::arithmetic::div_mod::lemma_div_is_ordered;
use vstd::prelude::*;

use crate::arith::{lemma_div_at_most, lemma_div_floor, lemma_pro_rata};
use crate::instructions::{
    deposit_outcome, input_reserve, output_reserve, swap_outcome, withdraw_outcome,
};
use crate::state::Pool;
use crate::utils::{
    deposit_quote, isqrt, lemma_isqrt_bounds, lemma_isqrt_of_product_fits,
    lemma_swap_output_below_reserve, net_input, proportional_shares, swap_denominator,
    swap_numerator, swap_output, withdraw_quote, FEE_DEN, MINIMUM_LIQUIDITY,
};

verus! {

/// On the curve, the product of the reserves after a swap is at least the
/// product before it, and greater wherever a fee is charged on a positive
/// input.
pub proof fn lemma_swap_output_grows_product(
    amount_in: int,
    reserve_in: int,
    reserve_out: int,
    fee_bps: int,
)
    requires
        amount_in >= 0,
        reserve_in > 0,
        reserve_out > 0,
        0 <= fee_bps <= FEE_DEN,
    ensures
        (reserve_in + amount_in) * (reserve_out - swap_output(
            amount_in,
            reserve_in,
            reserve_out,
            fee_bps,
        )) >= reserve_in * reserve_out,
        fee_bps > 0 && amount_in > 0 ==> (reserve_in + amount_in) * (reserve_out - swap_output(
            amount_in,
            reserve_in,
            reserve_out,
            fee_bps,
        )) > reserve_in * reserve_out,
{
    let d: int = FEE_DEN as int;
    let m: int = d - fee_bps;
    let net: int = net_input(amount_in, fee_bps);
    let num: int = swap_numerator(amount_in, reserve_out, fee_bps);
    let den: int = swap_denominator(amount_in, reserve_in, fee_bps);
    let out: int = swap_output(amount_in, reserve_in, reserve_out, fee_bps);
    assert(net >= 0 && num >= 0) by (nonlinear_arith)
        requires
            net == amount_in * m,
            num == net * reserve_out,
            amount_in >= 0,
            m >= 0,
            reserve_out > 0,
    ;
    lemma_div_floor(num, den);
    // From `out * (d * reserve_in + m * amount_in) <= m * amount_in * reserve_out`
    // and `m <= d`: `m * out * (reserve_in + amount_in) <= m * amount_in * reserve_out`.
    assert(out * (reserve_in + amount_in) <= amount_in * reserve_out) by (nonlinear_arith)
        requires
            out * den <= num,
            den == reserve_in * d + amount_in * m,
            num == amount_in * m * reserve_out,
            0 <= m <= d,
            d > 0,
            out >= 0,
            amount_in >= 0,
            reserve_in > 0,
            reserve_out > 0,
    {
        if m == 0 {
            assert(out * (reserve_in * d) <= 0);
            assert(out == 0);
        } else {
            assert(out * (reserve_in * m) <= out * (reserve_in * d));
            assert(m * (out * (reserve_in + amount_in)) <= m * (amount_in * reserve_out));
        }
    }
    assert((reserve_in + amount_in) * (reserve_out - out) == reserve_in * reserve_out + (amount_in
        * reserve_out - out * (reserve_in + amount_in))) by (nonlinear_arith);
    if fee_bps > 0 && amount_in > 0 {
        assert(out * (reserve_in + amount_in) < amount_in * reserve_out) by (nonlinear_arith)
            requires
                out * den <= num,
                den == reserve_in * d + amount_in * m,
                num == amount_in * m * reserve_out,
                0 <= m < d,
                out >= 0,
                amount_in > 0,
                reserve_in > 0,
                reserve_out > 0,
        {
            if out == 0 {
                assert(amount_in * reserve_out > 0);
            } else {
                assert(m > 0) by {
                    if m == 0 {
                        assert(out * (reserve_in * d) <= 0);
                    }
                }
                assert(out * (reserve_in * m) < out * (reserve_in * d));
                assert(m * (out * (reserve_in + amount_in)) < m * (amount_in * reserve_out));
            }
        }
    }
}

/// A swap never shrinks the product of the reserves: wherever a swap goes
/// through, the product of the two reserves afterwards is at least the
/// product before, and strictly greater where the pool charges a fee.
pub proof fn lemma_swap_grows_product(
    pool: Pool,
    amount_in: u64,
    min_amount_out: u64,
    is_a_to_b: bool,
)
    requires
        swap_outcome(pool, amount_in, min_amount_out, is_a_to_b) is Ok,
    ensures
        ({
            let next = swap_outcome(pool, amount_in, min_amount_out, is_a_to_b)->Ok_0.1;
            &&& next.reserve_a * next.reserve_b >= pool.reserve_a * pool.reserve_b
            &&& pool.fee_numerator > 0 ==> next.reserve_a * next.reserve_b > pool.reserve_a
                * pool.reserve_b
        }),
{
    let r_in: int = input_reserve(pool, is_a_to_b) as int;
    let r_out: int = output_reserve(pool, is_a_to_b) as int;
    let fee: int = pool.fee_numerator as int;
    lemma_swap_output_grows_product(amount_in as int, r_in, r_out, fee);
    lemma_swap_output_below_reserve(amount_in as int, r_in, r_out, fee);
    let out: int = swap_output(amount_in as int, r_in, r_out, fee);
    assert((r_in + amount_in) * (r_out - out) == (r_out - out) * (r_in + amount_in))
        by (nonlinear_arith);
    assert(r_in * r_out == r_out * r_in) by (nonlinear_arith);
}

/// A swap that goes through leaves a well-formed pool well-formed.
pub proof fn lemma_swap_keeps_pool_well_formed(
    pool: Pool,
    amount_in: u64,
    min_amount_out: u64,
    is_a_to_b: bool,
)
    requires
        pool.wf(),
        swap_outcome(pool, amount_in, min_amount_out, is_a_to_b) is Ok,
    ensures
        swap_outcome(pool, amount_in, min_amount_out, is_a_to_b)->Ok_0.1.wf(),
{
    lemma_swap_output_below_reserve(
        amount_in as int,
        input_reserve(pool, is_a_to_b) as int,
        output_reserve(pool, is_a_to_b) as int,
        pool.fee_numerator as int,
    );
}

/// A deposit that goes through leaves a well-formed pool well-formed.
pub proof fn lemma_deposit_keeps_pool_well_formed(
    pool: Pool,
    amount_a: u64,
    amount_b: u64,
    min_lp_tokens: u64,
    lp_supply: u64,
)
    requires
        pool.wf(),
        deposit_outcome(pool, amount_a, amount_b, min_lp_tokens, lp_supply) is Ok,
    ensures
        deposit_outcome(pool, amount_a, amount_b, min_lp_tokens, lp_supply)->Ok_0.1.wf(),
{
}

/// A withdrawal that goes through leaves a well-formed pool well-formed:
/// it empties both reserves or neither.
pub proof fn lemma_withdraw_keeps_pool_well_formed(
    pool: Pool,
    lp_token_amount: u64,
    min_amount_a: u64,
    min_amount_b: u64,
    lp_supply: u64,
)
    requires
        pool.wf(),
        withdraw_outcome(pool, lp_token_amount, min_amount_a, min_amount_b, lp_supply) is Ok,
    ensures
        withdraw_outcome(pool, lp_token_amount, min_amount_a, min_amount_b, lp_supply)->Ok_0.1.wf(),
{
    lemma_withdraw_amounts(lp_token_amount, pool.reserve_a, pool.reserve_b, lp_supply);
}

/// What a withdrawal pays: never more than the reserves, never more than
/// the shares' part of them, and all of a reserve exactly when all shares
/// are handed in.
pub proof fn lemma_withdraw_amounts(
    lp_token_amount: u64,
    reserve_a: u64,
    reserve_b: u64,
    lp_supply: u64,
)
    requires
        withdraw_quote(lp_token_amount, reserve_a, reserve_b, lp_supply) is Ok,
    ensures
        ({
            let amounts = withdraw_quote(lp_token_amount, reserve_a, reserve_b, lp_supply)->Ok_0;
            &&& amounts.0 == reserve_a * lp_token_amount / (lp_supply as int)
            &&& amounts.1 == reserve_b * lp_token_amount / (lp_supply as int)
            &&& amounts.0 <= reserve_a
            &&& amounts.1 <= reserve_b
            &&& amounts.0 * lp_supply <= reserve_a * lp_token_amount
            &&& amounts.1 * lp_supply <= reserve_b * lp_token_amount
            &&& (amounts.0 == reserve_a) == (lp_token_amount == lp_supply)
            &&& (amounts.1 == reserve_b) == (lp_token_amount == lp_supply)
        }),
{
    lemma_pro_rata(reserve_a as int, lp_token_amount as int, lp_supply as int);
    lemma_pro_rata(reserve_b as int, lp_token_amount as int, lp_supply as int);
}

/// The integer square root never decreases as its argument grows.
pub proof fn lemma_isqrt_monotonic(m: nat, n: nat)
    requires
        m <= n,
    ensures
        isqrt(m) <= isqrt(n),
{
    lemma_isqrt_bounds(m);
    lemma_isqrt_bounds(n);
    let p: nat = isqrt(m);
    let q: nat = isqrt(n);
    assert(p <= q) by (nonlinear_arith)
        requires
            p * p <= m,
            m <= n,
            n < (q + 1) * (q + 1),
    {
        if p >= q + 1 {
            assert(p * p >= (q + 1) * (q + 1));
        }
    }
}

/// A deposit into a pool that has shares never dilutes them: the shares it
/// earns are worth no more of either reserve than it brings, so the claim of
/// each share on each reserve is at least what it was.
pub proof fn lemma_deposit_keeps_claims(
    amount_a: u64,
    amount_b: u64,
    reserve_a: u64,
    reserve_b: u64,
    lp_supply: u64,
)
    requires
        lp_supply > 0,
        deposit_quote(amount_a, amount_b, reserve_a, reserve_b, lp_supply) is Ok,
    ensures
        ({
            let shares = deposit_quote(amount_a, amount_b, reserve_a, reserve_b, lp_supply)->Ok_0;
            &&& shares * reserve_a <= amount_a * lp_supply
            &&& shares * reserve_b <= amount_b * lp_supply
            &&& (reserve_a + amount_a) * lp_supply >= reserve_a * (lp_supply + shares)
            &&& (reserve_b + amount_b) * lp_supply >= reserve_b * (lp_supply + shares)
        }),
{
    let shares: int = deposit_quote(
        amount_a,
        amount_b,
        reserve_a,
        reserve_b,
        lp_supply,
    )->Ok_0 as int;
    let a: int = amount_a as int;
    let b: int = amount_b as int;
    let ra: int = reserve_a as int;
    let rb: int = reserve_b as int;
    let l: int = lp_supply as int;
    assert(a * l >= 0 && b * l >= 0) by (nonlinear_arith)
        requires
            a >= 0,
            b >= 0,
            l >= 0,
    ;
    lemma_div_floor(a * l, ra);
    lemma_div_floor(b * l, rb);
    assert(shares * ra <= a * l) by (nonlinear_arith)
        requires
            0 <= shares <= a * l / ra,
            (a * l / ra) * ra <= a * l,
            ra > 0,
    ;
    assert(shares * rb <= b * l) by (nonlinear_arith)
        requires
            0 <= shares <= b * l / rb,
            (b * l / rb) * rb <= b * l,
            rb > 0,
    ;
    assert((ra + a) * l == ra * l + a * l && ra * (l + shares) == ra * l + shares * ra)
        by (nonlinear_arith);
    assert((rb + b) * l == rb * l + b * l && rb * (l + shares) == rb * l + shares * rb)
        by (nonlinear_arith);
}

/// A larger deposit never earns fewer shares: of two deposits into the same
/// pool that are both accepted, the one that brings at least as much of
/// both tokens earns at least as many shares.
pub proof fn lemma_deposit_monotonic(
    amount_a1: u64,
    amount_b1: u64,
    amount_a2: u64,
    amount_b2: u64,
    reserve_a: u64,
    reserve_b: u64,
    lp_supply: u64,
)
    requires
        amount_a1 <= amount_a2,
        amount_b1 <= amount_b2,
        deposit_quote(amount_a1, amount_b1, reserve_a, reserve_b, lp_supply) is Ok,
        deposit_quote(amount_a2, amount_b2, reserve_a, reserve_b, lp_supply) is Ok,
    ensures
        deposit_quote(amount_a1, amount_b1, reserve_a, reserve_b, lp_supply)->Ok_0 <= deposit_quote(
            amount_a2,
            amount_b2,
            reserve_a,
            reserve_b,
            lp_supply,
        )->Ok_0,
{
    let a1: int = amount_a1 as int;
    let b1: int = amount_b1 as int;
    let a2: int = amount_a2 as int;
    let b2: int = amount_b2 as int;
    let l: int = lp_supply as int;
    if lp_supply == 0 {
        assert(0 <= a1 * b1 <= a2 * b2) by (nonlinear_arith)
            requires
                0 <= a1 <= a2,
                0 <= b1 <= b2,
        ;
        lemma_isqrt_monotonic((a1 * b1) as nat, (a2 * b2) as nat);
        lemma_isqrt_of_product_fits(amount_a1, amount_b1);
        lemma_isqrt_of_product_fits(amount_a2, amount_b2);
    } else {
        assert(0 <= a1 * l <= a2 * l && 0 <= b1 * l <= b2 * l) by (nonlinear_arith)
            requires
                0 <= a1 <= a2,
                0 <= b1 <= b2,
                l >= 0,
        ;
        lemma_div_is_ordered(a1 * l, a2 * l, reserve_a as int);
        lemma_div_is_ordered(b1 * l, b2 * l, reserve_b as int);
        lemma_div_floor(a1 * l, reserve_a as int);
        lemma_div_floor(b1 * l, reserve_b as int);
    }
}

/// Shares in proportion are never negative.
proof fn lemma_proportional_shares_nonnegative(a: int, b: int, ra: int, rb: int, l: int)
    requires
        a >= 0,
        b >= 0,
        ra > 0,
        rb > 0,
        l >= 0,
    ensures
        proportional_shares(a, b, ra, rb, l) >= 0,
{
    assert(a * l >= 0 && b * l >= 0) by (nonlinear_arith)
        requires
            a >= 0,
            b >= 0,
            l >= 0,
    ;
    lemma_div_floor(a * l, ra);
    lemma_div_floor(b * l, rb);
}

/// Of two quotients rounded down, `x1 = n1 / d` and `x2 = n2 / d`, whose
/// dividends are in the proportion `a1 : a2`, the second is below the first
/// scaled up and rounded up: `x2 * a1 < (x1 + 1) * a2`.
proof fn lemma_quotients_in_proportion(a1: int, a2: int, l: int, d: int)
    requires
        a1 > 0,
        a2 > 0,
        l >= 0,
        d > 0,
    ensures
        (a2 * l / d) * a1 < (a1 * l / d + 1) * a2,
{
    let x1: int = a1 * l / d;
    let x2: int = a2 * l / d;
    assert(a1 * l >= 0 && a2 * l >= 0) by (nonlinear_arith)
        requires
            a1 > 0,
            a2 > 0,
            l >= 0,
    ;
    lemma_div_floor(a1 * l, d);
    lemma_div_floor(a2 * l, d);
    assert(x2 * a1 < (x1 + 1) * a2) by (nonlinear_arith)
        requires
            x2 * d <= a2 * l,
            a1 * l < (x1 + 1) * d,
            a1 > 0,
            a2 > 0,
            d > 0,
            l >= 0,
            x1 >= 0,
            x2 >= 0,
    {
        assert((x2 * d) * a1 <= (a2 * l) * a1);
        assert((a1 * l) * a2 < ((x1 + 1) * d) * a2);
        assert((x2 * a1) * d < ((x1 + 1) * a2) * d);
    }
}

/// Shares in proportion, one way round: for two deposits in the same
/// proportion into a pool that has shares, `s2 * a1 < (s1 + 1) * a2`.
proof fn lemma_proportional_shares_scale(
    a1: int,
    b1: int,
    a2: int,
    b2: int,
    ra: int,
    rb: int,
    l: int,
)
    requires
        a1 > 0,
        b1 > 0,
        a2 > 0,
        b2 > 0,
        ra > 0,
        rb > 0,
        l >= 0,
        a1 * b2 == a2 * b1,
    ensures
        proportional_shares(a2, b2, ra, rb, l) * a1 < (proportional_shares(a1, b1, ra, rb, l) + 1)
            * a2,
        proportional_shares(a2, b2, ra, rb, l) * b1 < (proportional_shares(a1, b1, ra, rb, l) + 1)
            * b2,
{
    let x1: int = a1 * l / ra;
    let y1: int = b1 * l / rb;
    let x2: int = a2 * l / ra;
    let y2: int = b2 * l / rb;
    let s1: int = proportional_shares(a1, b1, ra, rb, l);
    let s2: int = proportional_shares(a2, b2, ra, rb, l);
    lemma_quotients_in_proportion(a1, a2, l, ra);
    lemma_quotients_in_proportion(b1, b2, l, rb);
    assert(a1 * l >= 0 && a2 * l >= 0 && b1 * l >= 0 && b2 * l >= 0) by (nonlinear_arith)
        requires
            a1 > 0,
            a2 > 0,
            b1 > 0,
            b2 > 0,
            l >= 0,
    ;
    lemma_div_floor(a2 * l, ra);
    lemma_div_floor(b2 * l, rb);
    if x1 <= y1 {
        // the A side prices the first deposit
        assert(s2 * a1 < (s1 + 1) * a2) by (nonlinear_arith)
            requires
                0 <= s2 <= x2,
                s1 == x1,
                x2 * a1 < (x1 + 1) * a2,
                a1 > 0,
        {
            assert(s2 * a1 <= x2 * a1);
        }
        assert(s2 * b1 < (s1 + 1) * b2) by (nonlinear_arith)
            requires
                s2 * a1 < (s1 + 1) * a2,
                a1 * b2 == a2 * b1,
                a1 > 0,
                b1 > 0,
                a2 > 0,
                b2 > 0,
                s2 >= 0,
                s1 >= 0,
        {
            assert((s2 * a1) * b2 < ((s1 + 1) * a2) * b2);
            assert((s2 * b1) * a2 == (s2 * a1) * b2);
            assert((s2 * b1) * a2 < ((s1 + 1) * b2) * a2);
        }
    } else {
        // the B side prices the first deposit
        assert(s2 * b1 < (s1 + 1) * b2) by (nonlinear_arith)
            requires
                0 <= s2 <= y2,
                s1 == y1,
                y2 * b1 < (y1 + 1) * b2,
                b1 > 0,
        {
            assert(s2 * b1 <= y2 * b1);
        }
        assert(s2 * a1 < (s1 + 1) * a2) by (nonlinear_arith)
            requires
                s2 * b1 < (s1 + 1) * b2,
                a1 * b2 == a2 * b1,
                a1 > 0,
                b1 > 0,
                a2 > 0,
                b2 > 0,
                s2 >= 0,
                s1 >= 0,
        {
            assert((s2 * b1) * a2 < ((s1 + 1) * b2) * a2);
            assert((s2 * a1) * b2 == (s2 * b1) * a2);
            assert((s2 * a1) * b2 < ((s1 + 1) * a2) * b2);
        }
    }
}

/// Roots in proportion, one way round: for two deposits in the same
/// proportion, with `q` the integer square root of the product of a
/// deposit's amounts, `q2 * a1 < (q1 + 1) * a2`.
proof fn lemma_root_shares_scale(a1: int, b1: int, a2: int, b2: int)
    requires
        a1 > 0,
        b1 > 0,
        a2 > 0,
        b2 > 0,
        a1 * b2 == a2 * b1,
    ensures
        a1 * b1 > 0,
        a2 * b2 > 0,
        isqrt((a2 * b2) as nat) * a1 < (isqrt((a1 * b1) as nat) + 1) * a2,
        isqrt((a2 * b2) as nat) * b1 < (isqrt((a1 * b1) as nat) + 1) * b2,
{
    assert(a1 * b1 > 0 && a2 * b2 > 0) by (nonlinear_arith)
        requires
            a1 > 0,
            b1 > 0,
            a2 > 0,
            b2 > 0,
    ;
    let product1: int = a1 * b1;
    let product2: int = a2 * b2;
    lemma_isqrt_bounds(product1 as nat);
    lemma_isqrt_bounds(product2 as nat);
    let q1: int = isqrt(product1 as nat) as int;
    let q2: int = isqrt(product2 as nat) as int;
    assert(product2 * (b1 * b1) == product1 * (b2 * b2)) by (nonlinear_arith)
        requires
            product1 == a1 * b1,
            product2 == a2 * b2,
            a1 * b2 == a2 * b1,
    {
        assert(product2 * (b1 * b1) == (a2 * b1) * (b2 * b1));
        assert(product1 * (b2 * b2) == (a1 * b2) * (b1 * b2));
    }
    assert(product2 * (a1 * a1) == product1 * (a2 * a2)) by (nonlinear_arith)
        requires
            product1 == a1 * b1,
            product2 == a2 * b2,
            a1 * b2 == a2 * b1,
    {
        assert(product2 * (a1 * a1) == (a1 * b2) * (a2 * a1));
        assert(product1 * (a2 * a2) == (a2 * b1) * (a1 * a2));
    }
    lemma_square_root_in_proportion(q1, q2, a1, a2, product1, product2);
    lemma_square_root_in_proportion(q1, q2, b1, b2, product1, product2);
}

/// Where `product2 * c1 * c1 == product1 * c2 * c2`, a `q2` whose square is
/// within `product2` and a `q1` whose successor's square is above `product1`
/// satisfy `q2 * c1 < (q1 + 1) * c2`.
proof fn lemma_square_root_in_proportion(
    q1: int,
    q2: int,
    c1: int,
    c2: int,
    product1: int,
    product2: int,
)
    requires
        q1 >= 0,
        q2 >= 0,
        c1 > 0,
        c2 > 0,
        q2 * q2 <= product2,
        product1 < (q1 + 1) * (q1 + 1),
        product2 * (c1 * c1) == product1 * (c2 * c2),
    ensures
        q2 * c1 < (q1 + 1) * c2,
{
    let x: int = q2 * c1;
    let y: int = (q1 + 1) * c2;
    assert(x * x == (q2 * q2) * (c1 * c1)) by (nonlinear_arith)
        requires
            x == q2 * c1,
    ;
    assert(y * y == ((q1 + 1) * (q1 + 1)) * (c2 * c2)) by (nonlinear_arith)
        requires
            y == (q1 + 1) * c2,
    ;
    assert((q2 * q2) * (c1 * c1) <= product2 * (c1 * c1)) by (nonlinear_arith)
        requires
            q2 * q2 <= product2,
            c1 > 0,
    ;
    assert(product1 * (c2 * c2) < ((q1 + 1) * (q1 + 1)) * (c2 * c2)) by (nonlinear_arith)
        requires
            product1 < (q1 + 1) * (q1 + 1),
            c2 > 0,
    ;
    assert(x * x < y * y);
    assert(x < y) by (nonlinear_arith)
        requires
            x * x < y * y,
            x >= 0,
            y >= 0,
    {
        if x >= y {
            assert(x * x >= y * y);
        }
    }
}

/// The liquidity that a deposit is priced at: the shares it earns, and for
/// the first deposit into a pool the locked minimum on top of them.
pub open spec fn deposit_liquidity(shares: u64, lp_supply: u64) -> int {
    if lp_supply == 0 {
        shares + MINIMUM_LIQUIDITY
    } else {
        shares as int
    }
}

/// Deposits in the same proportion are priced at the same rate, up to the
/// rounding of one share: for two accepted deposits `(a1, b1)` and
/// `(a2, b2)` into the same pool with `a1 * b2 == a2 * b1`, priced at the
/// liquidities `q1` and `q2`, `q2 * a1 < (q1 + 1) * a2` and
/// `q1 * a2 < (q2 + 1) * a1`, and the same with the amounts of token B.
///
/// For a pool that has shares the liquidity is the share count itself, so
/// the shares grow linearly with the size of the deposit. For the first
/// deposit it is the share count plus `MINIMUM_LIQUIDITY`.
pub proof fn lemma_deposit_scales_linearly(
    amount_a1: u64,
    amount_b1: u64,
    amount_a2: u64,
    amount_b2: u64,
    reserve_a: u64,
    reserve_b: u64,
    lp_supply: u64,
)
    requires
        amount_a1 * amount_b2 == amount_a2 * amount_b1,
        deposit_quote(amount_a1, amount_b1, reserve_a, reserve_b, lp_supply) is Ok,
        deposit_quote(amount_a2, amount_b2, reserve_a, reserve_b, lp_supply) is Ok,
    ensures
        ({
            let q1 = deposit_liquidity(
                deposit_quote(amount_a1, amount_b1, reserve_a, reserve_b, lp_supply)->Ok_0,
                lp_supply,
            );
            let q2 = deposit_liquidity(
                deposit_quote(amount_a2, amount_b2, reserve_a, reserve_b, lp_supply)->Ok_0,
                lp_supply,
            );
            &&& q2 * amount_a1 < (q1 + 1) * amount_a2
            &&& q1 * amount_a2 < (q2 + 1) * amount_a1
            &&& q2 * amount_b1 < (q1 + 1) * amount_b2
            &&& q1 * amount_b2 < (q2 + 1) * amount_b1
        }),
{
    let a1: int = amount_a1 as int;
    let b1: int = amount_b1 as int;
    let a2: int = amount_a2 as int;
    let b2: int = amount_b2 as int;
    if lp_supply == 0 {
        lemma_root_shares_scale(a1, b1, a2, b2);
        lemma_root_shares_scale(a2, b2, a1, b1);
        lemma_isqrt_of_product_fits(amount_a1, amount_b1);
        lemma_isqrt_of_product_fits(amount_a2, amount_b2);
    } else {
        let ra: int = reserve_a as int;
        let rb: int = reserve_b as int;
        let l: int = lp_supply as int;
        lemma_proportional_shares_scale(a1, b1, a2, b2, ra, rb, l);
        lemma_proportional_shares_scale(a2, b2, a1, b1, ra, rb, l);
        lemma_proportional_shares_nonnegative(a1, b1, ra, rb, l);
        lemma_proportional_shares_nonnegative(a2, b2, ra, rb, l);
    }
}

/// A deposit taken straight out again returns no more than was put in.
///
/// Where a deposit of `(amount_a, amount_b)` is accepted and the shares it
/// earned are at once handed back, out of a supply that has grown by just
/// those shares, the withdrawal pays at most `amount_a` and `amount_b`, and
/// leaves in each reserve at least what was there before the deposit. A
/// pool without shares is taken to hold no reserves.
pub proof fn lemma_deposit_then_withdraw(
    pool: Pool,
    amount_a: u64,
    amount_b: u64,
    min_lp_tokens: u64,
    lp_supply: u64,
    min_amount_a: u64,
    min_amount_b: u64,
)
    requires
        lp_supply == 0 ==> pool.reserve_a == 0 && pool.reserve_b == 0,
        deposit_outcome(pool, amount_a, amount_b, min_lp_tokens, lp_supply) is Ok,
        ({
            let (shares, funded) = deposit_outcome(
                pool,
                amount_a,
                amount_b,
                min_lp_tokens,
                lp_supply,
            )->Ok_0;
            &&& lp_supply + shares <= u64::MAX
            &&& withdraw_outcome(
                funded,
                shares,
                min_amount_a,
                min_amount_b,
                (lp_supply + shares) as u64,
            ) is Ok
        }),
    ensures
        ({
            let (shares, funded) = deposit_outcome(
                pool,
                amount_a,
                amount_b,
                min_lp_tokens,
                lp_supply,
            )->Ok_0;
            let (amounts, drained) = withdraw_outcome(
                funded,
                shares,
                min_amount_a,
                min_amount_b,
                (lp_supply + shares) as u64,
            )->Ok_0;
            &&& amounts.0 <= amount_a
            &&& amounts.1 <= amount_b
            &&& drained.reserve_a >= pool.reserve_a
            &&& drained.reserve_b >= pool.reserve_b
        }),
{
    let (shares, funded) = deposit_outcome(pool, amount_a, amount_b, min_lp_tokens, lp_supply)->Ok_0;
    let supply: u64 = (lp_supply + shares) as u64;
    lemma_withdraw_amounts(shares, funded.reserve_a, funded.reserve_b, supply);
    let s: int = shares as int;
    let l: int = lp_supply as int;
    let a: int = amount_a as int;
    let b: int = amount_b as int;
    let ra: int = pool.reserve_a as int;
    let rb: int = pool.reserve_b as int;
    if lp_supply > 0 {
        lemma_deposit_keeps_claims(amount_a, amount_b, pool.reserve_a, pool.reserve_b, lp_supply);
    }
    assert((ra + a) * s <= a * (l + s) && (ra + a) * s >= 0) by (nonlinear_arith)
        requires
            l == 0 ==> ra == 0,
            l > 0 ==> s * ra <= a * l,
            s >= 0,
            l >= 0,
            a >= 0,
            ra >= 0,
    {
        assert((ra + a) * s == s * ra + a * s);
        assert(a * (l + s) == a * l + a * s);
    }
    assert((rb + b) * s <= b * (l + s) && (rb + b) * s >= 0) by (nonlinear_arith)
        requires
            l == 0 ==> rb == 0,
            l > 0 ==> s * rb <= b * l,
            s >= 0,
            l >= 0,
            b >= 0,
            rb >= 0,
    {
        assert((rb + b) * s == s * rb + b * s);
        assert(b * (l + s) == b * l + b * s);
    }
    lemma_div_at_most((ra + a) * s, l + s, a);
    lemma_div_at_most((rb + b) * s, l + s, b);
}

} // verus!
