//! The pricing formulas: the integer square root, the fee, and the quotes
//! of a swap, a deposit and a withdrawal, each with the mathematical
//! statement of what it returns.

use vstd::prelude::*;

use crate::arith::{lemma_div_below, lemma_div_floor, lemma_mul_u64_fits, lemma_pro_rata};
use crate::errors::DexError;
use crate::invariants::lemma_swap_output_grows_product;

verus! {

/// Fee denominator: fees are given in basis points, 10 000 of which are 100%.
pub const FEE_DEN: u128 = 10_000;

/// Shares withheld for good from the first deposit into a pool, so that
/// the first depositor cannot cheaply skew the price of a share.
pub const MINIMUM_LIQUIDITY: u64 = 1000;

/// `r` is the integer square root of `n`: the greatest `r` with `r * r <= n`.
pub open spec fn is_isqrt(n: nat, r: nat) -> bool {
    r * r <= n && n < (r + 1) * (r + 1)
}

/// The integer square root of `n`.
pub open spec fn isqrt(n: nat) -> nat {
    choose|r: nat| is_isqrt(n, r)
}

/// Every natural number has an integer square root, and `isqrt` names it.
pub proof fn lemma_isqrt_bounds(n: nat)
    ensures
        is_isqrt(n, isqrt(n)),
    decreases n,
{
    if n == 0 {
        assert(is_isqrt(0, 0)) by (nonlinear_arith);
    } else {
        let m: nat = (n - 1) as nat;
        lemma_isqrt_bounds(m);
        let p: nat = isqrt(m);
        if n < (p + 1) * (p + 1) {
            assert(is_isqrt(n, p));
        } else {
            assert((p + 2) * (p + 2) == (p + 1) * (p + 1) + 2 * p + 3) by (nonlinear_arith);
            assert(is_isqrt(n, p + 1));
        }
    }
}

/// The integer square root is unique: whatever satisfies its bounds is it.
pub proof fn lemma_isqrt_unique(n: nat, r: nat)
    requires
        is_isqrt(n, r),
    ensures
        isqrt(n) == r,
{
    let s: nat = isqrt(n);
    lemma_isqrt_bounds(n);
    assert(s == r) by (nonlinear_arith)
        requires
            r * r <= n,
            n < (r + 1) * (r + 1),
            s * s <= n,
            n < (s + 1) * (s + 1),
    {
        if s < r {
            assert((s + 1) * (s + 1) <= r * r);
        }
        if r < s {
            assert((r + 1) * (r + 1) <= s * s);
        }
    }
}

/// One Newton step from any positive `x` lands at or above the root of `n`.
proof fn lemma_newton_step_above_root(n: nat, x: nat, y: nat)
    requires
        x >= 1,
        y == (x + n / x) / 2,
    ensures
        n < (y + 1) * (y + 1),
{
    let q: nat = n / x;
    assert(n < (q + 1) * x) by (nonlinear_arith)
        requires
            x >= 1,
            q == n / x,
    ;
    assert(2 * (y + 1) >= x + q + 1);
    assert(n < (y + 1) * (y + 1)) by (nonlinear_arith)
        requires
            n < (q + 1) * x,
            2 * (y + 1) >= x + q + 1,
    {
        assert((x + q + 1) * (x + q + 1) >= 4 * ((q + 1) * x)) by {
            assert((x + q + 1) * (x + q + 1) - 4 * ((q + 1) * x) == (x - (q + 1)) * (x - (q
                + 1)));
            assert((x - (q + 1)) * (x - (q + 1)) >= 0);
        }
        assert(4 * ((y + 1) * (y + 1)) >= (x + q + 1) * (x + q + 1));
    }
}

/// For `1 <= x <= n` the sum `x + n / x` is at most `n + 1`.
proof fn lemma_newton_sum_bound(n: nat, x: nat)
    requires
        1 <= x <= n,
    ensures
        x + n / x <= n + 1,
{
    let q: int = n as int / x as int;
    let b: int = n + 2 - x;
    assert(q < b) by (nonlinear_arith)
        requires
            1 <= x <= n,
            q == n as int / x as int,
            b == n + 2 - x,
    {
        assert((x - 1) * (n - x) >= 0);
        assert(n < b * x);
        assert(q * x <= n);
    }
}

/// Below the half of `n + 1`, and at or above the root of `n`, the sum
/// `y + n / y` stays within `n` or within 4.
proof fn lemma_newton_sum_fits(n: nat, y: nat)
    requires
        1 <= y,
        2 * y <= n + 1,
        n < (y + 1) * (y + 1),
    ensures
        y + n / y <= n || y + n / y <= 4,
{
    let q: int = n as int / y as int;
    if y == 1 {
        assert(n < 4) by (nonlinear_arith)
            requires
                y == 1,
                n < (y + 1) * (y + 1),
        ;
        assert(q == n);
    } else {
        assert(2 * q <= n) by (nonlinear_arith)
            requires
                y >= 2,
                q == n as int / y as int,
        {
            assert(q * y <= n);
            assert(q >= 0);
            assert(q * 2 <= q * y);
        }
    }
}

/// Where a Newton step no longer descends, `x` is at or below the root.
proof fn lemma_newton_fixpoint_below_root(n: nat, x: nat)
    requires
        x >= 1,
        (x + n / x) / 2 >= x,
    ensures
        x * x <= n,
{
    let q: nat = n / x;
    assert(q >= x);
    assert(x * x <= n) by (nonlinear_arith)
        requires
            x >= 1,
            q == n / x,
            q >= x,
    {
        assert(q * x <= n);
        assert(x * x <= q * x);
    }
}

/// Integer square root by Newton's method: the greatest `r` with
/// `r * r <= n`, in integer arithmetic only.
pub fn sqrt(n: u128) -> (r: u128)
    ensures
        r == isqrt(n as nat),
        r * r <= n,
        n < (r + 1) * (r + 1),
{
    if n == 0 {
        proof {
            lemma_isqrt_unique(0, 0);
        }
        return 0;
    }
    let mut x: u128 = n;
    let mut y: u128 = n / 2 + n % 2;
    assert(n / n == 1) by (nonlinear_arith)
        requires
            n > 0,
    ;
    assert((n + 1) * (n + 1) > n) by (nonlinear_arith);
    while y < x
        invariant
            1 <= x <= n,
            n < (x + 1) * (x + 1),
            y == (x + n / x) / 2,
            2 * y <= n + 1,
        decreases x,
    {
        proof {
            lemma_newton_step_above_root(n as nat, x as nat, y as nat);
            assert(y >= 1) by (nonlinear_arith)
                requires
                    n >= 1,
                    n < (y + 1) * (y + 1),
            ;
            lemma_newton_sum_bound(n as nat, y as nat);
            lemma_newton_sum_fits(n as nat, y as nat);
        }
        x = y;
        let q: u128 = n / x;
        y = (x + q) / 2;
    }
    proof {
        lemma_newton_fixpoint_below_root(n as nat, x as nat);
        lemma_isqrt_unique(n as nat, x as nat);
    }
    x
}

/// The input of a swap after the fee, scaled up by `FEE_DEN`:
/// `amount_in * (FEE_DEN - fee_bps)`, for a fee of at most 100%.
pub open spec fn net_input(amount_in: int, fee_bps: int) -> int {
    amount_in * (FEE_DEN - fee_bps)
}

/// The dividend of the swap formula: the net input times the reserve that
/// is paid out of.
pub open spec fn swap_numerator(amount_in: int, reserve_out: int, fee_bps: int) -> int {
    net_input(amount_in, fee_bps) * reserve_out
}

/// The divisor of the swap formula: the reserve that is paid into, scaled up
/// by `FEE_DEN`, plus the net input.
pub open spec fn swap_denominator(amount_in: int, reserve_in: int, fee_bps: int) -> int {
    reserve_in * FEE_DEN + net_input(amount_in, fee_bps)
}

/// What a swap pays out on the constant-product curve, rounded down.
pub open spec fn swap_output(amount_in: int, reserve_in: int, reserve_out: int, fee_bps: int) -> int {
    swap_numerator(amount_in, reserve_out, fee_bps) / swap_denominator(
        amount_in,
        reserve_in,
        fee_bps,
    )
}

/// The quote of a swap: its output, or the first reason why there is none.
pub open spec fn swap_quote(amount_in: u64, reserve_in: u64, reserve_out: u64, fee_bps: u64) -> Result<
    u64,
    DexError,
> {
    if amount_in == 0 {
        Err(DexError::InvalidAmount)
    } else if reserve_in == 0 || reserve_out == 0 {
        Err(DexError::InsufficientLiquidity)
    } else if fee_bps > FEE_DEN {
        Err(DexError::InvalidFee)
    } else if swap_numerator(amount_in as int, reserve_out as int, fee_bps as int) > u128::MAX {
        Err(DexError::MathOverflow)
    } else {
        Ok(swap_output(amount_in as int, reserve_in as int, reserve_out as int, fee_bps as int) as u64)
    }
}

/// A swap never pays out the whole reserve: with a positive reserve on the
/// input side the output stays strictly below the reserve on the output side.
pub proof fn lemma_swap_output_below_reserve(
    amount_in: int,
    reserve_in: int,
    reserve_out: int,
    fee_bps: int,
)
    requires
        amount_in >= 0,
        reserve_in > 0,
        reserve_out > 0,
        0 <= fee_bps <= FEE_DEN,
    ensures
        0 <= swap_output(amount_in, reserve_in, reserve_out, fee_bps) < reserve_out,
{
    let net: int = net_input(amount_in, fee_bps);
    let den: int = swap_denominator(amount_in, reserve_in, fee_bps);
    assert(net >= 0) by (nonlinear_arith)
        requires
            net == amount_in * (FEE_DEN - fee_bps),
            amount_in >= 0,
            fee_bps <= FEE_DEN,
    ;
    assert(net * reserve_out < reserve_out * den) by (nonlinear_arith)
        requires
            net >= 0,
            den > net,
            reserve_out > 0,
    ;
    assert(net * reserve_out >= 0) by (nonlinear_arith)
        requires
            net >= 0,
            reserve_out > 0,
    ;
    lemma_div_floor(net * reserve_out, den);
    lemma_div_below(net * reserve_out, den, reserve_out);
}

/// Takes the fee off the input of a swap.
///
/// Returns `amount_in * (FEE_DEN - fee_bps)`, the net input scaled up by
/// `FEE_DEN`, in 128 bits, where it cannot overflow. A fee above 100% is
/// refused.
pub fn apply_fee(amount_in: u64, fee_bps: u64) -> (r: Result<u128, DexError>)
    ensures
        fee_bps > FEE_DEN ==> r == Err::<u128, DexError>(DexError::InvalidFee),
        fee_bps <= FEE_DEN ==> r == Ok::<u128, DexError>(
            net_input(amount_in as int, fee_bps as int) as u128,
        ),
        r matches Ok(net) ==> net == net_input(amount_in as int, fee_bps as int) && net <= amount_in
            * FEE_DEN,
{
    if fee_bps as u128 > FEE_DEN {
        return Err(DexError::InvalidFee);
    }
    let fee_multiplier: u128 = FEE_DEN - fee_bps as u128;
    assert(amount_in * fee_multiplier <= amount_in * FEE_DEN) by (nonlinear_arith)
        requires
            fee_multiplier <= FEE_DEN,
    ;
    Ok(amount_in as u128 * fee_multiplier)
}

/// Quotes a swap on the constant-product curve, with the fee taken off the
/// input.
///
/// The output is `net * reserve_out / (reserve_in * FEE_DEN + net)`, where
/// `net` is `amount_in * (FEE_DEN - fee_bps)`, rounded down, so that rounding
/// never favours the trader. The quote is refused, in this order, for a zero
/// input, an empty reserve, a fee above 100%, and a dividend that does not
/// fit 128 bits.
pub fn calculate_swap_amount(amount_in: u64, reserve_in: u64, reserve_out: u64, fee_bps: u64) -> (r:
    Result<u64, DexError>)
    ensures
        r == swap_quote(amount_in, reserve_in, reserve_out, fee_bps),
        r matches Ok(amount_out) ==> ({
            &&& amount_out == swap_output(
                amount_in as int,
                reserve_in as int,
                reserve_out as int,
                fee_bps as int,
            )
            &&& amount_out < reserve_out
            &&& (reserve_in + amount_in) * (reserve_out - amount_out) >= reserve_in * reserve_out
            &&& fee_bps > 0 ==> (reserve_in + amount_in) * (reserve_out - amount_out) > reserve_in
                * reserve_out
        }),
{
    if amount_in == 0 {
        return Err(DexError::InvalidAmount);
    }
    if reserve_in == 0 || reserve_out == 0 {
        return Err(DexError::InsufficientLiquidity);
    }
    let amount_in_with_fee: u128 = apply_fee(amount_in, fee_bps)?;
    let numerator: u128 = match amount_in_with_fee.checked_mul(reserve_out as u128) {
        Some(n) => n,
        None => {
            return Err(DexError::MathOverflow);
        },
    };
    let denominator: u128 = reserve_in as u128 * FEE_DEN + amount_in_with_fee;
    let amount_out: u128 = numerator / denominator;
    proof {
        lemma_swap_output_below_reserve(
            amount_in as int,
            reserve_in as int,
            reserve_out as int,
            fee_bps as int,
        );
        lemma_swap_output_grows_product(
            amount_in as int,
            reserve_in as int,
            reserve_out as int,
            fee_bps as int,
        );
    }
    Ok(amount_out as u64)
}

/// The shares that a deposit earns in a pool that has shares already: each
/// side of the deposit is worth `amount * lp_supply / reserve` shares,
/// rounded down, and the deposit earns the lesser of the two.
pub open spec fn proportional_shares(
    amount_a: int,
    amount_b: int,
    reserve_a: int,
    reserve_b: int,
    lp_supply: int,
) -> int {
    let shares_a = amount_a * lp_supply / reserve_a;
    let shares_b = amount_b * lp_supply / reserve_b;
    if shares_a <= shares_b {
        shares_a
    } else {
        shares_b
    }
}

/// The quote of the first deposit into a pool, for positive amounts: the
/// integer square root of their product less `MINIMUM_LIQUIDITY`, which
/// the root must exceed.
pub open spec fn first_deposit_quote(amount_a: u64, amount_b: u64) -> Result<u64, DexError> {
    let liquidity = isqrt((amount_a * amount_b) as nat);
    if liquidity <= MINIMUM_LIQUIDITY {
        Err(DexError::InsufficientLiquidity)
    } else {
        Ok((liquidity - MINIMUM_LIQUIDITY) as u64)
    }
}

/// The quote of a deposit into a pool that has shares, for positive
/// amounts: `proportional_shares`, where both reserves hold something and
/// the shares fit 64 bits.
pub open spec fn later_deposit_quote(
    amount_a: u64,
    amount_b: u64,
    reserve_a: u64,
    reserve_b: u64,
    lp_supply: u64,
) -> Result<u64, DexError> {
    let shares = proportional_shares(
        amount_a as int,
        amount_b as int,
        reserve_a as int,
        reserve_b as int,
        lp_supply as int,
    );
    if reserve_a == 0 || reserve_b == 0 {
        Err(DexError::InsufficientLiquidity)
    } else if shares > u64::MAX {
        Err(DexError::MathOverflow)
    } else {
        Ok(shares as u64)
    }
}

/// The quote of a deposit: the shares to issue, or the first reason why
/// there are none. A zero amount is refused; a pool without shares
/// (`lp_supply == 0`) takes the deposit as its first.
pub open spec fn deposit_quote(
    amount_a: u64,
    amount_b: u64,
    reserve_a: u64,
    reserve_b: u64,
    lp_supply: u64,
) -> Result<u64, DexError> {
    if amount_a == 0 || amount_b == 0 {
        Err(DexError::InvalidAmount)
    } else if lp_supply == 0 {
        first_deposit_quote(amount_a, amount_b)
    } else {
        later_deposit_quote(amount_a, amount_b, reserve_a, reserve_b, lp_supply)
    }
}

/// The quote of a withdrawal: the amounts of both tokens that the shares
/// redeem, `reserve * lp_token_amount / lp_supply` each, rounded down, or
/// the first reason why there are none.
pub open spec fn withdraw_quote(
    lp_token_amount: u64,
    reserve_a: u64,
    reserve_b: u64,
    lp_supply: u64,
) -> Result<(u64, u64), DexError> {
    if lp_token_amount == 0 {
        Err(DexError::InvalidAmount)
    } else if reserve_a == 0 || reserve_b == 0 || lp_token_amount > lp_supply {
        Err(DexError::InsufficientLiquidity)
    } else {
        Ok(
            (
                (reserve_a * lp_token_amount / (lp_supply as int)) as u64,
                (reserve_b * lp_token_amount / (lp_supply as int)) as u64,
            ),
        )
    }
}

/// The root of a product of two 64-bit values fits 64 bits.
pub proof fn lemma_isqrt_of_product_fits(a: u64, b: u64)
    ensures
        isqrt((a * b) as nat) <= u64::MAX,
{
    lemma_mul_u64_fits(a, b);
    let p: nat = (a * b) as nat;
    lemma_isqrt_bounds(p);
    let r: nat = isqrt(p);
    assert(r <= 0xffff_ffff_ffff_ffff) by (nonlinear_arith)
        requires
            r * r <= p,
            p <= 0xffff_ffff_ffff_fffe_0000_0000_0000_0001,
    {
        if r >= 0x1_0000_0000_0000_0000 {
            assert(r * r >= 0x1_0000_0000_0000_0000 * 0x1_0000_0000_0000_0000);
        }
    }
}

/// A part of an amount, pro rata: `amount * part / whole`, rounded down,
/// in 128 bits, where the product cannot overflow.
fn pro_rata(amount: u64, part: u64, whole: u64) -> (r: u128)
    requires
        whole > 0,
    ensures
        r == amount * part / (whole as int),
        r * whole <= amount * part,
{
    proof {
        lemma_mul_u64_fits(amount, part);
        assert(amount * part >= 0) by (nonlinear_arith)
            requires
                amount >= 0,
                part >= 0,
        ;
        lemma_div_floor(amount * part, whole as int);
    }
    amount as u128 * part as u128 / whole as u128
}

/// Quotes a deposit: how many shares to issue for `amount_a` and `amount_b`.
///
/// Both amounts must be positive. The first deposit into a pool
/// (`lp_supply == 0`) earns the integer square root of the product of the
/// amounts, less `MINIMUM_LIQUIDITY`, which stays locked for good; it is
/// refused unless the root exceeds that minimum. A later deposit earns the
/// lesser of `amount_a * lp_supply / reserve_a` and
/// `amount_b * lp_supply / reserve_b`, so that a lopsided deposit is paid for
/// its weaker side only and no holder's claim on the reserves shrinks. It is
/// refused where a reserve is empty, and where the shares do not fit 64
/// bits.
pub fn calculate_lp_tokens(
    amount_a: u64,
    amount_b: u64,
    reserve_a: u64,
    reserve_b: u64,
    lp_supply: u64,
) -> (r: Result<u64, DexError>)
    ensures
        r == deposit_quote(amount_a, amount_b, reserve_a, reserve_b, lp_supply),
        r matches Ok(shares) ==> lp_supply == 0 ==> shares + MINIMUM_LIQUIDITY == isqrt(
            (amount_a * amount_b) as nat,
        ),
        r matches Ok(shares) ==> lp_supply > 0 ==> ({
            &&& shares == proportional_shares(
                amount_a as int,
                amount_b as int,
                reserve_a as int,
                reserve_b as int,
                lp_supply as int,
            )
            &&& shares * reserve_a <= amount_a * lp_supply
            &&& shares * reserve_b <= amount_b * lp_supply
        }),
{
    if amount_a == 0 || amount_b == 0 {
        return Err(DexError::InvalidAmount);
    }
    if lp_supply == 0 {
        proof {
            lemma_mul_u64_fits(amount_a, amount_b);
            lemma_isqrt_of_product_fits(amount_a, amount_b);
        }
        let product: u128 = amount_a as u128 * amount_b as u128;
        let liquidity: u128 = sqrt(product);
        if liquidity <= MINIMUM_LIQUIDITY as u128 {
            return Err(DexError::InsufficientLiquidity);
        }
        Ok((liquidity - MINIMUM_LIQUIDITY as u128) as u64)
    } else {
        if reserve_a == 0 || reserve_b == 0 {
            return Err(DexError::InsufficientLiquidity);
        }
        let lp_a: u128 = pro_rata(amount_a, lp_supply, reserve_a);
        let lp_b: u128 = pro_rata(amount_b, lp_supply, reserve_b);
        let lp: u128 = if lp_a <= lp_b {
            lp_a
        } else {
            lp_b
        };
        if lp > u64::MAX as u128 {
            return Err(DexError::MathOverflow);
        }
        proof {
            assert(lp * reserve_a <= lp_a * reserve_a) by (nonlinear_arith)
                requires
                    lp <= lp_a,
                    reserve_a >= 0,
            ;
            assert(lp * reserve_b <= lp_b * reserve_b) by (nonlinear_arith)
                requires
                    lp <= lp_b,
                    reserve_b >= 0,
            ;
        }
        Ok(lp as u64)
    }
}

/// Quotes a withdrawal: the amounts of both tokens that `lp_token_amount`
/// shares redeem out of `lp_supply`.
///
/// Each amount is `reserve * lp_token_amount / lp_supply`, rounded down, so
/// that rounding never favours the one who leaves. The quote is refused for
/// zero shares, for an empty reserve, and for more shares than there are.
pub fn calculate_withdraw_amounts(
    lp_token_amount: u64,
    reserve_a: u64,
    reserve_b: u64,
    lp_supply: u64,
) -> (r: Result<(u64, u64), DexError>)
    ensures
        r == withdraw_quote(lp_token_amount, reserve_a, reserve_b, lp_supply),
        r matches Ok((amount_a, amount_b)) ==> ({
            &&& amount_a == reserve_a * lp_token_amount / (lp_supply as int)
            &&& amount_b == reserve_b * lp_token_amount / (lp_supply as int)
            &&& amount_a <= reserve_a
            &&& amount_b <= reserve_b
            &&& amount_a * lp_supply <= reserve_a * lp_token_amount
            &&& amount_b * lp_supply <= reserve_b * lp_token_amount
            &&& (amount_a == reserve_a) == (lp_token_amount == lp_supply)
            &&& (amount_b == reserve_b) == (lp_token_amount == lp_supply)
        }),
{
    if lp_token_amount == 0 {
        return Err(DexError::InvalidAmount);
    }
    if reserve_a == 0 || reserve_b == 0 || lp_token_amount > lp_supply {
        return Err(DexError::InsufficientLiquidity);
    }
    proof {
        lemma_pro_rata(reserve_a as int, lp_token_amount as int, lp_supply as int);
        lemma_pro_rata(reserve_b as int, lp_token_amount as int, lp_supply as int);
    }
    let amount_a: u128 = pro_rata(reserve_a, lp_token_amount, lp_supply);
    let amount_b: u128 = pro_rata(reserve_b, lp_token_amount, lp_supply);
    Ok((amount_a as u64, amount_b as u64))
}

} // verus!
