//! Pricing and accounting of a two-token constant-product market maker.
//!
//! The crate decides, from a pool's reserves and a requested deposit,
//! withdrawal or swap, how many shares or tokens change hands and whether the
//! request is allowed at all. It moves no balances itself: the caller applies
//! the numbers it returns.

pub mod arith;
pub mod errors;
pub mod instructions;
pub mod invariants;
pub mod keys;
pub mod state;
pub mod utils;

pub use errors::DexError;
pub use instructions::{
    add_liquidity, create_pool, initialize_pool, remove_liquidity, swap, Initialize,
    DEFAULT_FEE_BPS,
};
pub use state::Pool;
pub use utils::{
    apply_fee, calculate_lp_tokens, calculate_swap_amount, calculate_withdraw_amounts, sqrt, FEE_DEN,
    MINIMUM_LIQUIDITY,
};
