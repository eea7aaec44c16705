//! The account hasher: a deterministic, collision-resistant mapping from an
//! account identifier to a fixed-size key prefix, used to namespace
//! per-account storage collections. The digest itself comes from the host
//! runtime's hash primitive.

use vstd::prelude::*;
use crate::ids::AccountId;

verus! {

/// The SHA-256 digest of a byte string, as the host's hash primitive
/// computes it: a function of the input bytes alone.
pub uninterp spec fn sha256_of(bytes: Seq<u8>) -> Seq<u8>;

/// Relies on near_sdk::env::sha256: it returns the SHA-256 digest of the
/// given bytes, 32 bytes long, depending on the input alone.
#[verifier::external_body]
fn sha256(bytes: &Vec<u8>) -> (digest: Vec<u8>)
    ensures
        digest@ == sha256_of(bytes@),
        digest@.len() == 32,
{
    near_sdk::env::sha256(bytes.as_slice())
}

/// The unique storage key prefix for an account's collection: the SHA-256
/// digest of the account identifier.
pub fn hash_account_id(account_id: &AccountId) -> (digest: Vec<u8>)
    ensures
        digest@ == sha256_of(account_id@),
        digest@.len() == 32,
{
    sha256(&account_id.bytes)
}

} // verus!
