//! The failures that an operation on a pool can end in.

use vstd::prelude::*;

verus! {

/// Why an operation on a pool was turned down.
///
/// Every failure is reported before anything is changed: an operation that
/// returns one of these has left the pool exactly as it found it.
#[derive(Clone, Copy, Debug, PartialEq, Eq, Structural)]
pub enum DexError {
    /// An arithmetic step does not fit the integer width it is computed in.
    MathOverflow,
    /// The two token mints of a pool are the same.
    InvalidTokenPair,
    /// An amount is zero where a positive one is needed.
    InvalidAmount,
    /// The computed output is below the minimum the caller declared.
    SlippageExceeded,
    /// The pool holds too little for the operation, or the first deposit
    /// does not exceed the locked minimum.
    InsufficientLiquidity,
    /// The fee is more than 100%.
    InvalidFee,
    /// The initial liquidity is too low. Reserved: the operations of this
    /// crate report `InsufficientLiquidity` instead.
    InitialLiquidityTooLow,
    /// A reserve of the pool is zero. Reserved: the operations of this crate
    /// report `InsufficientLiquidity` instead.
    ZeroReserves,
}

} // verus!
