//! Storage-rent accounting. Callers pay for the bytes an operation causes the
//! ledger to retain and are refunded when that storage is released. Costs are
//! computed from the actual serialized length of each approval entry: the
//! account's bytes, a length prefix, and the approval-id field.

use vstd::prelude::*;
use crate::error::NftError;
use crate::ids::{account_wf, AccountId, MAX_ACCOUNT_ID_LEN};

verus! {

/// Bytes of the length prefix that precedes a serialized account identifier.
pub const LENGTH_PREFIX_BYTES: u64 = 4;

/// Bytes of a serialized approval id.
pub const APPROVAL_ID_BYTES: u64 = 8;

/// A payment the host must deliver: the ledger computes it, the shell around
/// the ledger sends it.
#[derive(Debug)]
pub struct Payment {
    pub receiver_id: AccountId,
    pub amount: u128,
}

/// Persisted size of one approval entry, in bytes.
pub open spec fn entry_bytes(account: Seq<u8>) -> int {
    account.len() + LENGTH_PREFIX_BYTES + APPROVAL_ID_BYTES
}

/// Persisted size of a whole approval ledger, in bytes.
pub open spec fn approvals_bytes(s: Seq<(Seq<u8>, u64)>) -> int
    decreases s.len(),
{
    if s.len() <= 0 {
        0
    } else {
        entry_bytes(s[0].0) + approvals_bytes(s.drop_first())
    }
}

/// Sum of the storage costs charged entry by entry.
pub open spec fn sum_entry_costs(s: Seq<(Seq<u8>, u64)>, storage_byte_cost: u128) -> int
    decreases s.len(),
{
    if s.len() <= 0 {
        0
    } else {
        entry_bytes(s[0].0) * storage_byte_cost + sum_entry_costs(s.drop_first(), storage_byte_cost)
    }
}

/// Appending an entry grows the ledger by exactly that entry's size.
pub proof fn lemma_bytes_push(s: Seq<(Seq<u8>, u64)>, p: (Seq<u8>, u64))
    ensures
        approvals_bytes(s.push(p)) == approvals_bytes(s) + entry_bytes(p.0),
    decreases s.len(),
{
    if s.len() == 0 {
        assert(s.push(p).drop_first() =~= s);
    } else {
        lemma_bytes_push(s.drop_first(), p);
        assert(s.push(p).drop_first() =~= s.drop_first().push(p));
        assert(s.push(p)[0] == s[0]);
    }
}

/// Law: releasing a whole approval ledger refunds exactly what its entries
/// cost: the refund for the ledger as one block of bytes equals the sum of
/// the storage costs its entries were charged one by one.
pub proof fn lemma_storage_round_trip(s: Seq<(Seq<u8>, u64)>, storage_byte_cost: u128)
    ensures
        approvals_bytes(s) * storage_byte_cost == sum_entry_costs(s, storage_byte_cost),
    decreases s.len(),
{
    if s.len() > 0 {
        lemma_storage_round_trip(s.drop_first(), storage_byte_cost);
        assert((entry_bytes(s[0].0) + approvals_bytes(s.drop_first())) * storage_byte_cost
            == entry_bytes(s[0].0) * storage_byte_cost + approvals_bytes(s.drop_first())
            * storage_byte_cost) by (nonlinear_arith);
    }
}

/// Bytes a single approved account entry takes up: the account identifier,
/// its length prefix, and the approval-id field.
pub fn bytes_for_approved_account_id(account_id: &AccountId) -> (n: u64)
    requires
        account_id.wf(),
    ensures
        n == entry_bytes(account_id@),
{
    account_id.bytes.len() as u64 + LENGTH_PREFIX_BYTES + APPROVAL_ID_BYTES
}

/// The refund owed for releasing every approval entry of a ledger: the total
/// released bytes priced at the current per-byte cost. Fails only when the
/// amount cannot be represented, in which case no payment can be delivered.
pub fn refund_approved_account_ids(
    account_id: AccountId,
    approved_account_ids: &Vec<(AccountId, u64)>,
    storage_byte_cost: u128,
) -> (r: Result<Payment, NftError>)
    requires
        forall|i: int|
            0 <= i < approved_account_ids@.len() ==> account_wf(
                #[trigger] approved_account_ids@[i].0@,
            ),
    ensures
        r matches Ok(p) ==> p.receiver_id@ == account_id@ && p.amount == approvals_bytes(
            crate::token::av(approved_account_ids@),
        ) * storage_byte_cost,
        r is Ok <==> approvals_bytes(crate::token::av(approved_account_ids@))
            * storage_byte_cost <= u128::MAX,
        r is Err ==> r == Err::<Payment, NftError>(NftError::HostPaymentFailure),
{
    let ghost s = crate::token::av(approved_account_ids@);
    let max_entry: u128 = MAX_ACCOUNT_ID_LEN as u128 + LENGTH_PREFIX_BYTES as u128
        + APPROVAL_ID_BYTES as u128;
    let mut released: u128 = 0;
    let mut i: usize = 0;
    while i < approved_account_ids.len()
        invariant
            0 <= i <= approved_account_ids@.len(),
            s == crate::token::av(approved_account_ids@),
            forall|j: int| 0 <= j < s.len() ==> account_wf(#[trigger] s[j].0),
            max_entry == MAX_ACCOUNT_ID_LEN + LENGTH_PREFIX_BYTES + APPROVAL_ID_BYTES,
            released == approvals_bytes(s.subrange(0, i as int)),
            released <= max_entry * i,
        decreases approved_account_ids@.len() - i,
    {
        let entry = &approved_account_ids[i];
        proof {
            assert(s[i as int] == (approved_account_ids@[i as int].0@,
            approved_account_ids@[i as int].1));
            assert(s.subrange(0, i as int + 1) =~= s.subrange(0, i as int).push(s[i as int]));
            lemma_bytes_push(s.subrange(0, i as int), s[i as int]);
            assert(max_entry * (i as int + 1) == max_entry * i + max_entry) by (nonlinear_arith);
        }
        let n = bytes_for_approved_account_id(&entry.0);
        proof {
            assert(n <= max_entry);
            assert(released + n <= max_entry * (i as int + 1));
            assert(i as int + 1 <= 0x1_0000_0000_0000_0000int);
            assert(max_entry * (i as int + 1) <= 76 * 0x1_0000_0000_0000_0000int)
                by (nonlinear_arith)
                requires
                    max_entry == 76,
                    0 <= i as int + 1 <= 0x1_0000_0000_0000_0000int,
            ;
        }
        released = released + n as u128;
        i += 1;
    }
    proof {
        assert(s.subrange(0, s.len() as int) =~= s);
    }
    match released.checked_mul(storage_byte_cost) {
        Some(amount) => Ok(Payment { receiver_id: account_id, amount }),
        None => Err(NftError::HostPaymentFailure),
    }
}

/// Validates that the attached deposit covers the storage just used, and
/// computes the surplus owed back to the caller. The surplus is not returned
/// when it is at most one smallest currency unit: such a transfer would cost
/// more than it moves.
pub fn refund_deposit(
    storage_used: u64,
    attached_deposit: u128,
    storage_byte_cost: u128,
    predecessor_id: AccountId,
) -> (r: Result<Option<Payment>, NftError>)
    ensures
        (r matches Err(e) ==> e == NftError::InsufficientDeposit),
        r is Err <==> attached_deposit < storage_used as int * storage_byte_cost as int,
        r matches Ok(Some(p)) ==> p.receiver_id@ == predecessor_id@ && p.amount
            == attached_deposit - storage_used as int * storage_byte_cost as int && p.amount > 1,
        (r matches Ok(o) ==> (o is None <==> attached_deposit - storage_used as int
            * storage_byte_cost as int <= 1)),
{
    match storage_byte_cost.checked_mul(storage_used as u128) {
        Some(required_cost) => {
            if attached_deposit < required_cost {
                Err(NftError::InsufficientDeposit)
            } else {
                let refund = attached_deposit - required_cost;
                if refund > 1 {
                    Ok(Some(Payment { receiver_id: predecessor_id, amount: refund }))
                } else {
                    Ok(None)
                }
            }
        },
        None => {
            // The required cost exceeds any representable deposit.
            Err(NftError::InsufficientDeposit)
        },
    }
}

} // verus!
