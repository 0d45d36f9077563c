//! The one outside type that the library holds, and the one thing it asks of
//! it. What stands here is believed of the outside crate, not proved.

use anchor_lang::prelude::Pubkey;
use vstd::prelude::*;

verus! {

/// `anchor_lang::prelude::Pubkey`, the 32-byte address of an account, which
/// `anchor_lang` hands on from `solana_pubkey`. The library never looks
/// inside one: it stores the addresses it is handed and tells two of them
/// apart.
#[verifier::external_type_specification]
#[verifier::external_body]
pub struct ExPubkey(anchor_lang::prelude::Pubkey);

/// Calls `PartialEq::eq` of `Pubkey`, which `solana_pubkey` derives for the
/// struct of the 32 address bytes. The contract claims that the call
/// returns `true` exactly when the two addresses are the same value.
#[verifier::external_body]
pub(crate) fn same_key(a: &Pubkey, b: &Pubkey) -> (r: bool)
    ensures
        r == (*a == *b),
{
    a == b
}

} // verus!
