//! The record of a pool and what holds of it.

use anchor_lang::prelude::Pubkey;
use vstd::prelude::*;

use crate::utils::FEE_DEN;

verus! {

/// The record of one liquidity pool over two tokens.
///
/// The addresses are handles owned by the ledger; only the reserves change
/// after the pool is created.
#[derive(Clone, Copy, Debug, PartialEq, Eq)]
pub struct Pool {
    /// Address that signs for the vaults and the share mint.
    pub authority: Pubkey,
    /// Mint of token A.
    pub token_a_mint: Pubkey,
    /// Mint of token B.
    pub token_b_mint: Pubkey,
    /// Account that holds the reserve of token A.
    pub token_a_vault: Pubkey,
    /// Account that holds the reserve of token B.
    pub token_b_vault: Pubkey,
    /// Mint of the pool's shares.
    pub lp_token_mint: Pubkey,
    /// Reserve of token A, in its smallest unit.
    pub reserve_a: u64,
    /// Reserve of token B, in its smallest unit.
    pub reserve_b: u64,
    /// Fee on the input of a swap, in basis points.
    pub fee_numerator: u64,
    /// Nonce from which the ledger derives the authority's address.
    pub authority_bump: u8,
}

impl Pool {
    /// What holds of every pool that this library made and changed: the two
    /// tokens differ, the fee is at most 100%, and the reserves are empty
    /// together or not at all.
    pub open spec fn wf(&self) -> bool {
        &&& self.token_a_mint != self.token_b_mint
        &&& self.fee_numerator <= FEE_DEN
        &&& (self.reserve_a == 0) == (self.reserve_b == 0)
    }

    /// The two records are of the same pool: they differ in the reserves at
    /// most. The addresses, the fee and the nonce are fixed when the pool is
    /// created.
    pub open spec fn same_terms(&self, other: Pool) -> bool {
        &&& self.authority == other.authority
        &&& self.token_a_mint == other.token_a_mint
        &&& self.token_b_mint == other.token_b_mint
        &&& self.token_a_vault == other.token_a_vault
        &&& self.token_b_vault == other.token_b_vault
        &&& self.lp_token_mint == other.lp_token_mint
        &&& self.fee_numerator == other.fee_numerator
        &&& self.authority_bump == other.authority_bump
    }
}

} // verus!
