use anchor_lang::prelude::Pubkey;
use nja_swap::{
    add_liquidity, create_pool, initialize_pool, remove_liquidity, swap, DexError, Initialize, Pool,
    DEFAULT_FEE_BPS,
};

fn key(n: u8) -> Pubkey {
    Pubkey::new_from_array([n; 32])
}

fn accounts() -> Initialize {
    Initialize {
        pool_authority: key(1),
        token_a_mint: key(2),
        token_b_mint: key(3),
        token_a_vault: key(4),
        token_b_vault: key(5),
        lp_token_mint: key(6),
        authority_bump: 254,
    }
}

fn pool_with(reserve_a: u64, reserve_b: u64, fee_bps: u64) -> Pool {
    let mut pool = create_pool(&accounts(), fee_bps).unwrap();
    pool.reserve_a = reserve_a;
    pool.reserve_b = reserve_b;
    pool
}

fn product(pool: &Pool) -> u128 {
    (pool.reserve_a as u128) * (pool.reserve_b as u128)
}

#[test]
fn new_pool_is_empty_and_keeps_its_addresses() {
    let pool = initialize_pool(&accounts()).unwrap();
    assert_eq!(pool.authority, key(1));
    assert_eq!(pool.token_a_mint, key(2));
    assert_eq!(pool.token_b_mint, key(3));
    assert_eq!(pool.token_a_vault, key(4));
    assert_eq!(pool.token_b_vault, key(5));
    assert_eq!(pool.lp_token_mint, key(6));
    assert_eq!(pool.reserve_a, 0);
    assert_eq!(pool.reserve_b, 0);
    assert_eq!(pool.fee_numerator, 30);
    assert_eq!(pool.authority_bump, 254);
    assert_eq!(DEFAULT_FEE_BPS, 30);
}

#[test]
fn new_pool_needs_two_different_mints() {
    let mut same = accounts();
    same.token_b_mint = same.token_a_mint;
    assert_eq!(initialize_pool(&same), Err(DexError::InvalidTokenPair));
    assert_eq!(create_pool(&same, 30), Err(DexError::InvalidTokenPair));
}

#[test]
fn new_pool_tells_mints_apart_by_every_byte() {
    let mut bytes = [7u8; 32];
    let mut close = accounts();
    close.token_a_mint = Pubkey::new_from_array(bytes);
    bytes[31] = 8;
    close.token_b_mint = Pubkey::new_from_array(bytes);
    assert!(initialize_pool(&close).is_ok());
    bytes[31] = 7;
    close.token_b_mint = Pubkey::new_from_array(bytes);
    assert_eq!(initialize_pool(&close), Err(DexError::InvalidTokenPair));
}

#[test]
fn new_pool_may_share_other_addresses() {
    let mut shared = accounts();
    shared.token_a_vault = shared.token_b_vault;
    shared.pool_authority = shared.token_a_mint;
    assert!(initialize_pool(&shared).is_ok());
}

#[test]
fn new_pool_takes_a_fee_up_to_the_whole() {
    assert_eq!(create_pool(&accounts(), 0).unwrap().fee_numerator, 0);
    assert_eq!(create_pool(&accounts(), 10_000).unwrap().fee_numerator, 10_000);
    assert_eq!(create_pool(&accounts(), 10_001), Err(DexError::InvalidFee));
    assert_eq!(create_pool(&accounts(), 30), initialize_pool(&accounts()));
}

#[test]
fn new_pool_reports_the_mints_before_the_fee() {
    let mut same = accounts();
    same.token_b_mint = same.token_a_mint;
    assert_eq!(create_pool(&same, 10_001), Err(DexError::InvalidTokenPair));
}

#[test]
fn first_deposit_fills_the_reserves() {
    let mut pool = initialize_pool(&accounts()).unwrap();
    assert_eq!(add_liquidity(&mut pool, 2000, 8000, 0, 0), Ok(3000));
    assert_eq!(pool.reserve_a, 2000);
    assert_eq!(pool.reserve_b, 8000);
    assert_eq!(pool.fee_numerator, 30);
    assert_eq!(pool.token_a_mint, key(2));
}

#[test]
fn later_deposit_adds_to_the_reserves() {
    let mut pool = pool_with(500, 2000, 30);
    assert_eq!(add_liquidity(&mut pool, 1000, 4000, 200, 100), Ok(200));
    assert_eq!(pool.reserve_a, 1500);
    assert_eq!(pool.reserve_b, 6000);
}

#[test]
fn deposit_below_the_callers_minimum_is_refused() {
    let mut pool = pool_with(500, 2000, 30);
    let before = pool;
    assert_eq!(
        add_liquidity(&mut pool, 1000, 4000, 201, 100),
        Err(DexError::SlippageExceeded)
    );
    assert_eq!(pool, before);
}

#[test]
fn refused_deposit_leaves_the_pool_unchanged() {
    let mut pool = pool_with(500, 2000, 30);
    let before = pool;
    assert_eq!(add_liquidity(&mut pool, 0, 4000, 0, 100), Err(DexError::InvalidAmount));
    assert_eq!(pool, before);
    assert_eq!(add_liquidity(&mut pool, 1000, 0, 0, 100), Err(DexError::InvalidAmount));
    assert_eq!(pool, before);
    let mut empty = pool_with(0, 0, 30);
    assert_eq!(
        add_liquidity(&mut empty, 10, 10, 0, 0),
        Err(DexError::InsufficientLiquidity)
    );
    assert_eq!(empty, pool_with(0, 0, 30));
}

#[test]
fn deposit_that_overflows_a_reserve_is_refused() {
    let mut pool = pool_with(u64::MAX - 5, 100, 30);
    let before = pool;
    assert_eq!(add_liquidity(&mut pool, 10, 10, 0, 1000), Err(DexError::MathOverflow));
    assert_eq!(pool, before);
    let mut other = pool_with(100, u64::MAX - 5, 30);
    assert_eq!(add_liquidity(&mut other, 10, 10, 0, 1000), Err(DexError::MathOverflow));
    assert_eq!(other, pool_with(100, u64::MAX - 5, 30));
    let mut fits = pool_with(u64::MAX - 5, 100, 30);
    assert_eq!(add_liquidity(&mut fits, 5, 10, 0, 1000), Ok(0));
    assert_eq!(fits.reserve_a, u64::MAX);
    assert_eq!(fits.reserve_b, 110);
}

#[test]
fn deposit_reports_slippage_before_overflow() {
    let mut pool = pool_with(u64::MAX - 5, 100, 30);
    assert_eq!(add_liquidity(&mut pool, 10, 10, 1, 1000), Err(DexError::SlippageExceeded));
}

#[test]
fn swap_moves_both_reserves_by_the_quote() {
    let mut pool = pool_with(10_000, 10_000, 30);
    assert_eq!(swap(&mut pool, 100, 98, true), Ok(98));
    assert_eq!(pool.reserve_a, 10_100);
    assert_eq!(pool.reserve_b, 9_902);
    assert_eq!(pool.fee_numerator, 30);
    assert_eq!(pool.lp_token_mint, key(6));
}

#[test]
fn swap_the_other_way_round() {
    let mut pool = pool_with(200_000, 50_000, 30);
    // token B in, token A out: 997_000 * 200_000 / (50_000 * 10_000 + 997_000)
    assert_eq!(swap(&mut pool, 100, 0, false), Ok(398));
    assert_eq!(pool.reserve_a, 199_602);
    assert_eq!(pool.reserve_b, 50_100);
    let mut again = pool_with(200_000, 50_000, 30);
    // token A in, token B out: 997_000 * 50_000 / (200_000 * 10_000 + 997_000)
    assert_eq!(swap(&mut again, 100, 0, true), Ok(24));
    assert_eq!(again.reserve_a, 200_100);
    assert_eq!(again.reserve_b, 49_976);
}

#[test]
fn swap_below_the_callers_minimum_is_refused() {
    let mut pool = pool_with(10_000, 10_000, 30);
    let before = pool;
    assert_eq!(swap(&mut pool, 100, 99, true), Err(DexError::SlippageExceeded));
    assert_eq!(pool, before);
    assert_eq!(swap(&mut pool, 100, u64::MAX, false), Err(DexError::SlippageExceeded));
    assert_eq!(pool, before);
}

#[test]
fn refused_swap_leaves_the_pool_unchanged() {
    let mut pool = pool_with(10_000, 10_000, 30);
    let before = pool;
    assert_eq!(swap(&mut pool, 0, 0, true), Err(DexError::InvalidAmount));
    assert_eq!(pool, before);
    let mut empty = pool_with(0, 0, 30);
    assert_eq!(swap(&mut empty, 100, 0, true), Err(DexError::InsufficientLiquidity));
    assert_eq!(empty, pool_with(0, 0, 30));
    let mut one_sided = pool_with(10_000, 0, 30);
    assert_eq!(swap(&mut one_sided, 100, 0, false), Err(DexError::InsufficientLiquidity));
    assert_eq!(one_sided, pool_with(10_000, 0, 30));
}

#[test]
fn swap_in_a_pool_with_a_fee_above_the_whole_is_refused() {
    let mut pool = pool_with(10_000, 10_000, 30);
    pool.fee_numerator = 10_001;
    let before = pool;
    assert_eq!(swap(&mut pool, 100, 0, true), Err(DexError::InvalidFee));
    assert_eq!(pool, before);
}

#[test]
fn swap_that_pays_nothing_is_no_failure() {
    let mut pool = pool_with(10_000, 10_000, 10_000);
    assert_eq!(swap(&mut pool, 100, 0, true), Ok(0));
    assert_eq!(pool.reserve_a, 10_100);
    assert_eq!(pool.reserve_b, 10_000);
    assert_eq!(swap(&mut pool, 100, 1, true), Err(DexError::SlippageExceeded));
}

#[test]
fn swap_that_overflows_the_dividend_is_refused() {
    let mut pool = pool_with(1, u64::MAX, 0);
    let before = pool;
    assert_eq!(swap(&mut pool, u64::MAX, 0, true), Err(DexError::MathOverflow));
    assert_eq!(pool, before);
}

#[test]
fn swap_that_overflows_the_input_reserve_is_refused() {
    let mut pool = pool_with(u64::MAX - 5, 1000, 30);
    let before = pool;
    assert_eq!(swap(&mut pool, 6, 0, true), Err(DexError::MathOverflow));
    assert_eq!(pool, before);
    assert_eq!(swap(&mut pool, 5, 0, true), Ok(0));
    assert_eq!(pool.reserve_a, u64::MAX);
    assert_eq!(pool.reserve_b, 1000);
}

#[test]
fn swaps_never_shrink_the_product_of_the_reserves() {
    let mut pool = pool_with(1_000_000, 250_000, 30);
    let mut last = product(&pool);
    for (amount_in, a_to_b) in [(1u64, true), (999, false), (50_000, true), (7, false), (123_456, false)] {
        swap(&mut pool, amount_in, 0, a_to_b).unwrap();
        let now = product(&pool);
        assert!(now > last);
        last = now;
    }
    let mut free = pool_with(1_000_000, 250_000, 0);
    let start = product(&free);
    swap(&mut free, 1_000_000, 0, true).unwrap();
    assert_eq!(free.reserve_b, 125_000);
    assert_eq!(product(&free), start);
    swap(&mut free, 3, 0, true).unwrap();
    assert!(product(&free) >= start);
}

#[test]
fn withdrawal_takes_the_amounts_out_of_the_reserves() {
    let mut pool = pool_with(1000, 3000, 30);
    assert_eq!(remove_liquidity(&mut pool, 50, 250, 750, 200), Ok((250, 750)));
    assert_eq!(pool.reserve_a, 750);
    assert_eq!(pool.reserve_b, 2250);
    assert_eq!(pool.fee_numerator, 30);
}

#[test]
fn withdrawal_of_all_shares_empties_the_pool() {
    let mut pool = pool_with(1000, 3000, 30);
    assert_eq!(remove_liquidity(&mut pool, 200, 0, 0, 200), Ok((1000, 3000)));
    assert_eq!(pool.reserve_a, 0);
    assert_eq!(pool.reserve_b, 0);
}

#[test]
fn withdrawal_below_the_callers_minimum_is_refused() {
    let mut pool = pool_with(1000, 3000, 30);
    let before = pool;
    assert_eq!(
        remove_liquidity(&mut pool, 50, 251, 750, 200),
        Err(DexError::SlippageExceeded)
    );
    assert_eq!(pool, before);
    assert_eq!(
        remove_liquidity(&mut pool, 50, 250, 751, 200),
        Err(DexError::SlippageExceeded)
    );
    assert_eq!(pool, before);
}

#[test]
fn refused_withdrawal_leaves_the_pool_unchanged() {
    let mut pool = pool_with(1000, 3000, 30);
    let before = pool;
    assert_eq!(remove_liquidity(&mut pool, 0, 0, 0, 200), Err(DexError::InvalidAmount));
    assert_eq!(pool, before);
    assert_eq!(
        remove_liquidity(&mut pool, 201, 0, 0, 200),
        Err(DexError::InsufficientLiquidity)
    );
    assert_eq!(pool, before);
    let mut empty = pool_with(0, 0, 30);
    assert_eq!(
        remove_liquidity(&mut empty, 1, 0, 0, 200),
        Err(DexError::InsufficientLiquidity)
    );
    assert_eq!(empty, pool_with(0, 0, 30));
}

#[test]
fn first_deposit_taken_straight_out_returns_what_was_put_in() {
    let mut pool = initialize_pool(&accounts()).unwrap();
    let shares = add_liquidity(&mut pool, 2000, 8000, 0, 0).unwrap();
    assert_eq!(shares, 3000);
    assert_eq!(remove_liquidity(&mut pool, shares, 0, 0, shares), Ok((2000, 8000)));
    assert_eq!(pool, initialize_pool(&accounts()).unwrap());
}

#[test]
fn later_deposit_taken_straight_out_returns_no_more_than_was_put_in() {
    for (a, b) in [(1000u64, 1000u64), (7, 31), (12_345, 1), (500, 2000), (999_999, 999_999)] {
        let mut pool = pool_with(517, 2003, 30);
        let supply: u64 = 101;
        let shares = add_liquidity(&mut pool, a, b, 0, supply).unwrap();
        if shares == 0 {
            assert_eq!(
                remove_liquidity(&mut pool, shares, 0, 0, supply + shares),
                Err(DexError::InvalidAmount)
            );
            continue;
        }
        let (out_a, out_b) = remove_liquidity(&mut pool, shares, 0, 0, supply + shares).unwrap();
        assert!(out_a <= a);
        assert!(out_b <= b);
        assert!(pool.reserve_a >= 517);
        assert!(pool.reserve_b >= 2003);
    }
}

#[test]
fn balanced_deposit_taken_straight_out() {
    let mut pool = pool_with(500, 2000, 30);
    assert_eq!(add_liquidity(&mut pool, 1000, 4000, 0, 100), Ok(200));
    assert_eq!(remove_liquidity(&mut pool, 200, 0, 0, 300), Ok((1000, 4000)));
    assert_eq!(pool.reserve_a, 500);
    assert_eq!(pool.reserve_b, 2000);
}

#[test]
fn errors_compare_and_print() {
    let all = [
        DexError::MathOverflow,
        DexError::InvalidTokenPair,
        DexError::InvalidAmount,
        DexError::SlippageExceeded,
        DexError::InsufficientLiquidity,
        DexError::InvalidFee,
        DexError::InitialLiquidityTooLow,
        DexError::ZeroReserves,
    ];
    for (i, a) in all.iter().enumerate() {
        for (j, b) in all.iter().enumerate() {
            assert_eq!(a == b, i == j);
        }
    }
    assert_eq!(format!("{:?}", DexError::SlippageExceeded), "SlippageExceeded");
}
