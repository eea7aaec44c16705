//! The ledger's error taxonomy. Every failing call returns one of these and
//! leaves the ledger unchanged; the host surfaces the kind and a readable
//! message to the caller.

use vstd::prelude::*;
use vstd::string::StringExecFns;

verus! {

#[derive(Clone, Copy, Debug, PartialEq, Eq, Structural)]
pub enum NftError {
    /// The caller is not the token's owner, or an approval id did not match.
    Unauthorized,
    /// The referenced token id is absent from the registry.
    TokenNotFound,
    /// The attached payment is below the computed storage cost.
    InsufficientDeposit,
    /// A removal call did not attach exactly one smallest currency unit.
    DepositRequired,
    /// A refund could not be delivered by the host's payment primitive.
    HostPaymentFailure,
}

impl NftError {
    /// A human-readable description of the error.
    pub fn message(&self) -> (r: String)
        ensures
            match self {
                NftError::Unauthorized => r@ == "caller is not authorized"@,
                NftError::TokenNotFound => r@ == "no token with the given id"@,
                NftError::InsufficientDeposit => r@
                    == "attached deposit does not cover the storage cost"@,
                NftError::DepositRequired => r@
                    == "requires attached deposit of exactly one smallest unit"@,
                NftError::HostPaymentFailure => r@ == "a payment could not be delivered"@,
            },
    {
        match self {
            NftError::Unauthorized => String::from_str("caller is not authorized"),
            NftError::TokenNotFound => String::from_str("no token with the given id"),
            NftError::InsufficientDeposit => String::from_str(
                "attached deposit does not cover the storage cost",
            ),
            NftError::DepositRequired => String::from_str(
                "requires attached deposit of exactly one smallest unit",
            ),
            NftError::HostPaymentFailure => String::from_str("a payment could not be delivered"),
        }
    }
}

} // verus!
