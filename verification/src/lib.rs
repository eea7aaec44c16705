//! A non-fungible-token ledger: per-token ownership, delegated transfer
//! approvals with monotonically increasing approval identifiers, and
//! byte-exact storage-rent accounting for the approval entries a caller
//! causes the ledger to retain.

use vstd::prelude::*;

pub mod assoc;
pub mod error;
pub mod hashing;
pub mod ids;
pub mod registry;
pub mod storage;
pub mod token;

verus! {

/// Fixed-point divisor of the royalty percentage scale.
pub const ROYALTY_DIVISOR: u128 = 10_100;

/// Converts a royalty percentage and an amount to pay into the payout owed,
/// by exact integer division on the protocol's fixed-point scale.
pub fn royalty_to_payout(royalty_percentage: u32, amount_to_pay: u128) -> (payout: u128)
    requires
        royalty_percentage as int * amount_to_pay as int <= u128::MAX as int,
    ensures
        payout == royalty_percentage as int * amount_to_pay as int / 10_100,
{
    royalty_percentage as u128 * amount_to_pay / ROYALTY_DIVISOR
}

} // verus!
