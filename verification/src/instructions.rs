//! The operations on a pool: creating it, adding and removing liquidity,
//! and swapping. Each prices the request, holds the result against the
//! caller's minimum, and only then changes the reserves; the caller moves
//! the tokens and the shares by the amounts returned.

use anchor_lang::prelude::Pubkey;
use vstd::prelude::*;

use crate::errors::DexError;
use crate::invariants::{
    lemma_deposit_keeps_pool_well_formed, lemma_swap_grows_product,
    lemma_swap_keeps_pool_well_formed, lemma_withdraw_keeps_pool_well_formed,
};
use crate::keys::same_key;
use crate::state::Pool;
use crate::utils::{
    calculate_lp_tokens, calculate_swap_amount, calculate_withdraw_amounts, deposit_quote,
    swap_quote, withdraw_quote, FEE_DEN,
};

verus! {

/// The fee of a pool that is created without naming one: 0.3%.
pub const DEFAULT_FEE_BPS: u64 = 30;

/// The addresses that a new pool is created over.
#[derive(Clone, Copy, Debug, PartialEq, Eq)]
pub struct Initialize {
    /// Address that will sign for the vaults and the share mint.
    pub pool_authority: Pubkey,
    /// Mint of token A.
    pub token_a_mint: Pubkey,
    /// Mint of token B.
    pub token_b_mint: Pubkey,
    /// Account that will hold the reserve of token A.
    pub token_a_vault: Pubkey,
    /// Account that will hold the reserve of token B.
    pub token_b_vault: Pubkey,
    /// Mint of the pool's shares.
    pub lp_token_mint: Pubkey,
    /// Nonce from which the ledger derives the authority's address.
    pub authority_bump: u8,
}

/// The empty pool over the given addresses, with the given fee.
pub open spec fn new_pool(accounts: Initialize, fee_bps: u64) -> Pool {
    Pool {
        authority: accounts.pool_authority,
        token_a_mint: accounts.token_a_mint,
        token_b_mint: accounts.token_b_mint,
        token_a_vault: accounts.token_a_vault,
        token_b_vault: accounts.token_b_vault,
        lp_token_mint: accounts.lp_token_mint,
        reserve_a: 0,
        reserve_b: 0,
        fee_numerator: fee_bps,
        authority_bump: accounts.authority_bump,
    }
}

/// What creating a pool gives: the empty pool, unless the two mints are the
/// same or the fee is above 100%.
pub open spec fn create_outcome(accounts: Initialize, fee_bps: u64) -> Result<Pool, DexError> {
    if accounts.token_a_mint == accounts.token_b_mint {
        Err(DexError::InvalidTokenPair)
    } else if fee_bps > FEE_DEN {
        Err(DexError::InvalidFee)
    } else {
        Ok(new_pool(accounts, fee_bps))
    }
}

/// The reserve that a swap pays into.
pub open spec fn input_reserve(pool: Pool, is_a_to_b: bool) -> u64 {
    if is_a_to_b {
        pool.reserve_a
    } else {
        pool.reserve_b
    }
}

/// The reserve that a swap pays out of.
pub open spec fn output_reserve(pool: Pool, is_a_to_b: bool) -> u64 {
    if is_a_to_b {
        pool.reserve_b
    } else {
        pool.reserve_a
    }
}

/// The pool with its two reserves replaced, named by the direction of a swap.
pub open spec fn with_reserves(pool: Pool, is_a_to_b: bool, new_in: u64, new_out: u64) -> Pool {
    if is_a_to_b {
        Pool { reserve_a: new_in, reserve_b: new_out, ..pool }
    } else {
        Pool { reserve_a: new_out, reserve_b: new_in, ..pool }
    }
}

/// What a swap gives: the amount paid out and the pool afterwards, or the
/// first reason why the swap is refused.
///
/// The quote comes first, then the caller's minimum, then the room left in
/// the reserve that is paid into.
pub open spec fn swap_outcome(pool: Pool, amount_in: u64, min_amount_out: u64, is_a_to_b: bool) -> Result<
    (u64, Pool),
    DexError,
> {
    let r_in = input_reserve(pool, is_a_to_b);
    let r_out = output_reserve(pool, is_a_to_b);
    match swap_quote(amount_in, r_in, r_out, pool.fee_numerator) {
        Err(e) => Err(e),
        Ok(amount_out) => if amount_out < min_amount_out {
            Err(DexError::SlippageExceeded)
        } else if r_in + amount_in > u64::MAX {
            Err(DexError::MathOverflow)
        } else {
            Ok(
                (
                    amount_out,
                    with_reserves(
                        pool,
                        is_a_to_b,
                        (r_in + amount_in) as u64,
                        (r_out - amount_out) as u64,
                    ),
                ),
            )
        },
    }
}

/// What a deposit gives: the shares to issue and the pool afterwards, or the
/// first reason why the deposit is refused.
pub open spec fn deposit_outcome(
    pool: Pool,
    amount_a: u64,
    amount_b: u64,
    min_lp_tokens: u64,
    lp_supply: u64,
) -> Result<(u64, Pool), DexError> {
    match deposit_quote(amount_a, amount_b, pool.reserve_a, pool.reserve_b, lp_supply) {
        Err(e) => Err(e),
        Ok(lp_tokens) => if lp_tokens < min_lp_tokens {
            Err(DexError::SlippageExceeded)
        } else if pool.reserve_a + amount_a > u64::MAX || pool.reserve_b + amount_b > u64::MAX {
            Err(DexError::MathOverflow)
        } else {
            Ok(
                (
                    lp_tokens,
                    Pool {
                        reserve_a: (pool.reserve_a + amount_a) as u64,
                        reserve_b: (pool.reserve_b + amount_b) as u64,
                        ..pool
                    },
                ),
            )
        },
    }
}

/// What a withdrawal gives: the amounts of both tokens to pay out and the
/// pool afterwards, or the first reason why the withdrawal is refused.
pub open spec fn withdraw_outcome(
    pool: Pool,
    lp_token_amount: u64,
    min_amount_a: u64,
    min_amount_b: u64,
    lp_supply: u64,
) -> Result<((u64, u64), Pool), DexError> {
    match withdraw_quote(lp_token_amount, pool.reserve_a, pool.reserve_b, lp_supply) {
        Err(e) => Err(e),
        Ok(amounts) => if amounts.0 < min_amount_a || amounts.1 < min_amount_b {
            Err(DexError::SlippageExceeded)
        } else {
            Ok(
                (
                    amounts,
                    Pool {
                        reserve_a: (pool.reserve_a - amounts.0) as u64,
                        reserve_b: (pool.reserve_b - amounts.1) as u64,
                        ..pool
                    },
                ),
            )
        },
    }
}

/// Creates the pool over the given addresses, empty, with the given fee.
///
/// Refused with `InvalidTokenPair` where the two mints are the same, and
/// with `InvalidFee` where the fee is above 100%.
pub fn create_pool(accounts: &Initialize, fee_bps: u64) -> (r: Result<Pool, DexError>)
    ensures
        r == create_outcome(*accounts, fee_bps),
        r matches Ok(pool) ==> pool.wf(),
{
    if same_key(&accounts.token_a_mint, &accounts.token_b_mint) {
        return Err(DexError::InvalidTokenPair);
    }
    if fee_bps as u128 > FEE_DEN {
        return Err(DexError::InvalidFee);
    }
    Ok(
        Pool {
            authority: accounts.pool_authority,
            token_a_mint: accounts.token_a_mint,
            token_b_mint: accounts.token_b_mint,
            token_a_vault: accounts.token_a_vault,
            token_b_vault: accounts.token_b_vault,
            lp_token_mint: accounts.lp_token_mint,
            reserve_a: 0,
            reserve_b: 0,
            fee_numerator: fee_bps,
            authority_bump: accounts.authority_bump,
        },
    )
}

/// Creates the pool over the given addresses, empty, with the default fee
/// of 0.3%. Refused with `InvalidTokenPair` where the two mints are the same.
pub fn initialize_pool(accounts: &Initialize) -> (r: Result<Pool, DexError>)
    ensures
        r == create_outcome(*accounts, DEFAULT_FEE_BPS),
        r is Err <==> accounts.token_a_mint == accounts.token_b_mint,
        r matches Ok(pool) ==> pool.wf(),
{
    create_pool(accounts, DEFAULT_FEE_BPS)
}

/// Adds liquidity: prices the deposit, holds the shares against the
/// caller's minimum, and adds both amounts to the reserves.
///
/// Returns the shares to issue. Where it fails, the pool is unchanged.
pub fn add_liquidity(
    pool: &mut Pool,
    amount_a: u64,
    amount_b: u64,
    min_lp_tokens: u64,
    lp_supply: u64,
) -> (r: Result<u64, DexError>)
    ensures
        (match deposit_outcome(*old(pool), amount_a, amount_b, min_lp_tokens, lp_supply) {
            Ok((lp_tokens, next)) => r == Ok::<u64, DexError>(lp_tokens) && *final(pool) == next,
            Err(e) => r == Err::<u64, DexError>(e) && *final(pool) == *old(pool),
        }),
        final(pool).same_terms(*old(pool)),
        old(pool).wf() ==> final(pool).wf(),
        r is Ok ==> ({
            &&& final(pool).reserve_a == old(pool).reserve_a + amount_a
            &&& final(pool).reserve_b == old(pool).reserve_b + amount_b
            &&& final(pool).reserve_a > 0
            &&& final(pool).reserve_b > 0
        }),
{
    let lp_tokens: u64 = calculate_lp_tokens(
        amount_a,
        amount_b,
        pool.reserve_a,
        pool.reserve_b,
        lp_supply,
    )?;
    if lp_tokens < min_lp_tokens {
        return Err(DexError::SlippageExceeded);
    }
    let new_reserve_a: u64 = match pool.reserve_a.checked_add(amount_a) {
        Some(v) => v,
        None => {
            return Err(DexError::MathOverflow);
        },
    };
    let new_reserve_b: u64 = match pool.reserve_b.checked_add(amount_b) {
        Some(v) => v,
        None => {
            return Err(DexError::MathOverflow);
        },
    };
    proof {
        if pool.wf() {
            lemma_deposit_keeps_pool_well_formed(
                *pool,
                amount_a,
                amount_b,
                min_lp_tokens,
                lp_supply,
            );
        }
    }
    pool.reserve_a = new_reserve_a;
    pool.reserve_b = new_reserve_b;
    Ok(lp_tokens)
}

/// Swaps `amount_in` of one token for the other: prices the swap, holds
/// the output against the caller's minimum, and moves both reserves by
/// exactly the amounts quoted.
///
/// `is_a_to_b` says that token A is paid in and token B paid out. Returns
/// the amount paid out. Where it fails, the pool is unchanged. The product
/// of the reserves never shrinks, and grows wherever a fee is charged.
pub fn swap(pool: &mut Pool, amount_in: u64, min_amount_out: u64, is_a_to_b: bool) -> (r: Result<
    u64,
    DexError,
>)
    ensures
        (match swap_outcome(*old(pool), amount_in, min_amount_out, is_a_to_b) {
            Ok((amount_out, next)) => r == Ok::<u64, DexError>(amount_out) && *final(pool) == next,
            Err(e) => r == Err::<u64, DexError>(e) && *final(pool) == *old(pool),
        }),
        final(pool).same_terms(*old(pool)),
        old(pool).wf() ==> final(pool).wf(),
        r is Ok ==> final(pool).reserve_a > 0 && final(pool).reserve_b > 0,
        final(pool).reserve_a * final(pool).reserve_b >= old(pool).reserve_a * old(pool).reserve_b,
        r is Ok && old(pool).fee_numerator > 0 ==> final(pool).reserve_a * final(pool).reserve_b
            > old(pool).reserve_a * old(pool).reserve_b,
{
    let (reserve_in, reserve_out): (u64, u64) = if is_a_to_b {
        (pool.reserve_a, pool.reserve_b)
    } else {
        (pool.reserve_b, pool.reserve_a)
    };
    let amount_out: u64 = calculate_swap_amount(
        amount_in,
        reserve_in,
        reserve_out,
        pool.fee_numerator,
    )?;
    if amount_out < min_amount_out {
        return Err(DexError::SlippageExceeded);
    }
    let new_reserve_in: u64 = match reserve_in.checked_add(amount_in) {
        Some(v) => v,
        None => {
            return Err(DexError::MathOverflow);
        },
    };
    let new_reserve_out: u64 = reserve_out - amount_out;
    proof {
        if pool.wf() {
            lemma_swap_keeps_pool_well_formed(*pool, amount_in, min_amount_out, is_a_to_b);
        }
        lemma_swap_grows_product(*pool, amount_in, min_amount_out, is_a_to_b);
    }
    if is_a_to_b {
        pool.reserve_a = new_reserve_in;
        pool.reserve_b = new_reserve_out;
    } else {
        pool.reserve_b = new_reserve_in;
        pool.reserve_a = new_reserve_out;
    }
    Ok(amount_out)
}

/// Removes liquidity: prices the shares handed in, holds both amounts
/// against the caller's minimums, and takes them out of the reserves.
///
/// Returns the amounts of token A and token B to pay out. Where it fails,
/// the pool is unchanged.
pub fn remove_liquidity(
    pool: &mut Pool,
    lp_token_amount: u64,
    min_amount_a: u64,
    min_amount_b: u64,
    lp_supply: u64,
) -> (r: Result<(u64, u64), DexError>)
    ensures
        (match withdraw_outcome(*old(pool), lp_token_amount, min_amount_a, min_amount_b, lp_supply) {
            Ok((amounts, next)) => r == Ok::<(u64, u64), DexError>(amounts) && *final(pool) == next,
            Err(e) => r == Err::<(u64, u64), DexError>(e) && *final(pool) == *old(pool),
        }),
        final(pool).same_terms(*old(pool)),
        old(pool).wf() ==> final(pool).wf(),
        r matches Ok(amounts) ==> ({
            &&& final(pool).reserve_a == old(pool).reserve_a - amounts.0
            &&& final(pool).reserve_b == old(pool).reserve_b - amounts.1
        }),
{
    let (amount_a, amount_b): (u64, u64) = calculate_withdraw_amounts(
        lp_token_amount,
        pool.reserve_a,
        pool.reserve_b,
        lp_supply,
    )?;
    if amount_a < min_amount_a || amount_b < min_amount_b {
        return Err(DexError::SlippageExceeded);
    }
    proof {
        if pool.wf() {
            lemma_withdraw_keeps_pool_well_formed(
                *pool,
                lp_token_amount,
                min_amount_a,
                min_amount_b,
                lp_supply,
            );
        }
    }
    pool.reserve_a = pool.reserve_a - amount_a;
    pool.reserve_b = pool.reserve_b - amount_b;
    Ok((amount_a, amount_b))
}

} // verus!
