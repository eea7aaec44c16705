use nft_ledger::error::NftError;
use nft_ledger::hashing::hash_account_id;
use nft_ledger::ids::{AccountId, TokenId};
use nft_ledger::registry::{CallContext, Contract};
use nft_ledger::royalty_to_payout;
use nft_ledger::storage::{bytes_for_approved_account_id, refund_deposit};
use nft_ledger::token::sample_token_metadata;

fn acct(name: &str) -> AccountId {
    AccountId { bytes: name.as_bytes().to_vec() }
}

fn tok(name: &str) -> TokenId {
    TokenId { bytes: name.as_bytes().to_vec() }
}

fn ctx(caller: &str, deposit: u128, byte_cost: u128) -> CallContext {
    CallContext {
        predecessor_id: acct(caller),
        attached_deposit: deposit,
        storage_byte_cost: byte_cost,
    }
}

fn ledger_with_t1_owned_by_alice() -> Contract {
    let mut contract = Contract::new();
    contract.nft_mint(&tok("t1"), &acct("alice"), sample_token_metadata());
    contract
}

#[test]
fn test_new_contract() {
    let contract = Contract::new();
    assert_eq!(contract.nft_total_supply(), 0);
}

#[test]
fn test_mint_registers_token() {
    let contract = ledger_with_t1_owned_by_alice();
    assert_eq!(contract.nft_total_supply(), 1);
    assert!(contract.contains_token(&tok("t1")));
    assert!(!contract.contains_token(&tok("t2")));
    assert_eq!(contract.tokens_by_id[0].1.owner_id.bytes, b"alice".to_vec());
    assert_eq!(contract.tokens_by_id[0].1.next_approval_id, 0);
}

// "bob" serializes to 3 bytes + 4 length-prefix bytes + 8 approval-id bytes.
const BOB_ENTRY_BYTES: u128 = 15;

#[test]
fn test_approve_then_transfer_scenario() {
    let mut contract = ledger_with_t1_owned_by_alice();

    let outcome = contract
        .nft_approve(&ctx("alice", BOB_ENTRY_BYTES, 1), &tok("t1"), &acct("bob"), None)
        .unwrap();
    assert!(outcome.refund.is_none());
    assert!(outcome.notification.is_none());
    assert!(contract.nft_is_approved(&tok("t1"), &acct("bob"), None));
    assert!(contract.nft_is_approved(&tok("t1"), &acct("bob"), Some(0)));
    assert_eq!(contract.tokens_by_id[0].1.next_approval_id, 1);

    let prev = contract
        .internal_transfer(&acct("alice"), &acct("carol"), &tok("t1"), None, None)
        .unwrap();
    assert_eq!(prev.owner_id.bytes, b"alice".to_vec());
    assert_eq!(contract.tokens_by_id[0].1.owner_id.bytes, b"carol".to_vec());
    assert!(!contract.nft_is_approved(&tok("t1"), &acct("bob"), None));
}

#[test]
fn test_approve_surplus_is_refunded() {
    let mut contract = ledger_with_t1_owned_by_alice();
    let outcome = contract
        .nft_approve(&ctx("alice", 10 * BOB_ENTRY_BYTES + 7, 10), &tok("t1"), &acct("bob"), None)
        .unwrap();
    let payment = outcome.refund.unwrap();
    assert_eq!(payment.receiver_id.bytes, b"alice".to_vec());
    assert_eq!(payment.amount, 7);
}

#[test]
fn test_reapproval_keeps_id_and_charges_nothing() {
    let mut contract = ledger_with_t1_owned_by_alice();
    contract
        .nft_approve(&ctx("alice", BOB_ENTRY_BYTES, 1), &tok("t1"), &acct("bob"), None)
        .unwrap();
    // No payment is needed the second time; the stored id stays 0.
    let outcome = contract
        .nft_approve(&ctx("alice", 0, 1), &tok("t1"), &acct("bob"), None)
        .unwrap();
    assert!(outcome.refund.is_none());
    assert!(contract.nft_is_approved(&tok("t1"), &acct("bob"), Some(0)));
    assert_eq!(contract.tokens_by_id[0].1.next_approval_id, 1);
}

#[test]
fn test_approval_ids_increase_and_are_never_reused() {
    let mut contract = ledger_with_t1_owned_by_alice();
    contract
        .nft_approve(&ctx("alice", 100, 1), &tok("t1"), &acct("bob"), None)
        .unwrap();
    contract
        .nft_approve(&ctx("alice", 100, 1), &tok("t1"), &acct("carol"), None)
        .unwrap();
    assert!(contract.nft_is_approved(&tok("t1"), &acct("bob"), Some(0)));
    assert!(contract.nft_is_approved(&tok("t1"), &acct("carol"), Some(1)));
    assert_eq!(contract.tokens_by_id[0].1.next_approval_id, 2);
    // Revoking everything must not reset the counter.
    contract.nft_remove_all(&ctx("alice", 1, 1), &tok("t1")).unwrap();
    assert_eq!(contract.tokens_by_id[0].1.next_approval_id, 2);
    contract
        .nft_approve(&ctx("alice", 100, 1), &tok("t1"), &acct("bob"), None)
        .unwrap();
    assert!(contract.nft_is_approved(&tok("t1"), &acct("bob"), Some(2)));
}

#[test]
fn test_is_approved_with_wrong_id() {
    let mut contract = ledger_with_t1_owned_by_alice();
    contract
        .nft_approve(&ctx("alice", BOB_ENTRY_BYTES, 1), &tok("t1"), &acct("bob"), None)
        .unwrap();
    assert!(!contract.nft_is_approved(&tok("t1"), &acct("bob"), Some(5)));
    assert!(!contract.nft_is_approved(&tok("t1"), &acct("carol"), None));
}

#[test]
fn test_approve_notification_payload() {
    let mut contract = ledger_with_t1_owned_by_alice();
    let outcome = contract
        .nft_approve(
            &ctx("alice", BOB_ENTRY_BYTES, 1),
            &tok("t1"),
            &acct("bob"),
            Some(String::from("hello")),
        )
        .unwrap();
    let n = outcome.notification.unwrap();
    assert_eq!(n.receiver_id.bytes, b"bob".to_vec());
    assert_eq!(n.token_id.bytes, b"t1".to_vec());
    assert_eq!(n.owner_id.bytes, b"alice".to_vec());
    assert_eq!(n.approval_id, 0);
    assert_eq!(n.msg, "hello");
}

#[test]
fn test_approve_requires_owner() {
    let mut contract = ledger_with_t1_owned_by_alice();
    let r = contract.nft_approve(&ctx("bob", 1000, 1), &tok("t1"), &acct("carol"), None);
    assert_eq!(r.unwrap_err(), NftError::Unauthorized);
    assert!(!contract.nft_is_approved(&tok("t1"), &acct("carol"), None));
    assert_eq!(contract.tokens_by_id[0].1.next_approval_id, 0);
}

#[test]
fn test_approve_insufficient_deposit() {
    let mut contract = ledger_with_t1_owned_by_alice();
    let r = contract.nft_approve(&ctx("alice", BOB_ENTRY_BYTES - 1, 1), &tok("t1"), &acct("bob"), None);
    assert_eq!(r.unwrap_err(), NftError::InsufficientDeposit);
    assert!(!contract.nft_is_approved(&tok("t1"), &acct("bob"), None));
}

#[test]
fn test_approve_token_not_found() {
    let mut contract = ledger_with_t1_owned_by_alice();
    let r = contract.nft_approve(&ctx("alice", 1000, 1), &tok("t9"), &acct("bob"), None);
    assert_eq!(r.unwrap_err(), NftError::TokenNotFound);
}

#[test]
fn test_remove_requires_owner() {
    let mut contract = ledger_with_t1_owned_by_alice();
    contract
        .nft_approve(&ctx("alice", BOB_ENTRY_BYTES, 1), &tok("t1"), &acct("bob"), None)
        .unwrap();
    let r = contract.nft_remove(&ctx("bob", 1, 1), &tok("t1"), &acct("bob"));
    assert_eq!(r.unwrap_err(), NftError::Unauthorized);
    assert!(contract.nft_is_approved(&tok("t1"), &acct("bob"), None));
}

#[test]
fn test_remove_requires_one_yocto() {
    let mut contract = ledger_with_t1_owned_by_alice();
    contract
        .nft_approve(&ctx("alice", BOB_ENTRY_BYTES, 1), &tok("t1"), &acct("bob"), None)
        .unwrap();
    let r = contract.nft_remove(&ctx("alice", 2, 1), &tok("t1"), &acct("bob"));
    assert_eq!(r.unwrap_err(), NftError::DepositRequired);
    let r = contract.nft_remove(&ctx("alice", 0, 1), &tok("t1"), &acct("bob"));
    assert_eq!(r.unwrap_err(), NftError::DepositRequired);
    assert!(contract.nft_is_approved(&tok("t1"), &acct("bob"), None));
}

#[test]
fn test_remove_refunds_entry_cost() {
    let mut contract = ledger_with_t1_owned_by_alice();
    contract
        .nft_approve(&ctx("alice", 10 * BOB_ENTRY_BYTES, 10), &tok("t1"), &acct("bob"), None)
        .unwrap();
    let payment = contract
        .nft_remove(&ctx("alice", 1, 10), &tok("t1"), &acct("bob"))
        .unwrap()
        .unwrap();
    assert_eq!(payment.receiver_id.bytes, b"alice".to_vec());
    assert_eq!(payment.amount, 10 * BOB_ENTRY_BYTES);
    assert!(!contract.nft_is_approved(&tok("t1"), &acct("bob"), None));
}

#[test]
fn test_remove_absent_entry_is_idempotent() {
    let mut contract = ledger_with_t1_owned_by_alice();
    let r = contract.nft_remove(&ctx("alice", 1, 1), &tok("t1"), &acct("bob"));
    assert!(r.unwrap().is_none());
}

#[test]
fn test_remove_all_requires_owner() {
    let mut contract = ledger_with_t1_owned_by_alice();
    contract
        .nft_approve(&ctx("alice", BOB_ENTRY_BYTES, 1), &tok("t1"), &acct("bob"), None)
        .unwrap();
    let r = contract.nft_remove_all(&ctx("bob", 1, 1), &tok("t1"));
    assert_eq!(r.unwrap_err(), NftError::Unauthorized);
    assert!(contract.nft_is_approved(&tok("t1"), &acct("bob"), None));
}

#[test]
fn test_remove_all_round_trip() {
    // Every grant is charged exactly its storage cost; clearing the ledger
    // refunds exactly the sum of what was charged.
    let price: u128 = 3;
    let mut contract = ledger_with_t1_owned_by_alice();
    let mut charged: u128 = 0;

    for grantee in ["bob", "carolina"] {
        let cost = (grantee.len() as u128 + 12) * price;
        let outcome = contract
            .nft_approve(&ctx("alice", cost, price), &tok("t1"), &acct(grantee), None)
            .unwrap();
        assert!(outcome.refund.is_none());
        charged += cost;
    }

    let payment = contract
        .nft_remove_all(&ctx("alice", 1, price), &tok("t1"))
        .unwrap()
        .unwrap();
    assert_eq!(payment.amount, charged);
    assert_eq!(payment.receiver_id.bytes, b"alice".to_vec());
    assert!(!contract.nft_is_approved(&tok("t1"), &acct("bob"), None));
    assert!(!contract.nft_is_approved(&tok("t1"), &acct("carolina"), None));
}

#[test]
fn test_remove_refund_overflow_is_host_failure() {
    let mut contract = ledger_with_t1_owned_by_alice();
    contract
        .nft_approve(&ctx("alice", BOB_ENTRY_BYTES, 1), &tok("t1"), &acct("bob"), None)
        .unwrap();
    // At this byte price the refund cannot be represented, so no payment
    // could be delivered; the call aborts with nothing changed.
    let r = contract.nft_remove(&ctx("alice", 1, u128::MAX), &tok("t1"), &acct("bob"));
    assert_eq!(r.unwrap_err(), NftError::HostPaymentFailure);
    assert!(contract.nft_is_approved(&tok("t1"), &acct("bob"), None));
}

#[test]
fn test_remove_all_refund_overflow_is_host_failure() {
    let mut contract = ledger_with_t1_owned_by_alice();
    contract
        .nft_approve(&ctx("alice", BOB_ENTRY_BYTES, 1), &tok("t1"), &acct("bob"), None)
        .unwrap();
    let r = contract.nft_remove_all(&ctx("alice", 1, u128::MAX), &tok("t1"));
    assert_eq!(r.unwrap_err(), NftError::HostPaymentFailure);
    assert!(contract.nft_is_approved(&tok("t1"), &acct("bob"), None));
}

#[test]
fn test_remove_all_with_no_approvals() {
    let mut contract = ledger_with_t1_owned_by_alice();
    let r = contract.nft_remove_all(&ctx("alice", 1, 1), &tok("t1"));
    assert!(r.unwrap().is_none());
}

#[test]
fn test_transfer_by_approved_account() {
    let mut contract = ledger_with_t1_owned_by_alice();
    contract
        .nft_approve(&ctx("alice", BOB_ENTRY_BYTES, 1), &tok("t1"), &acct("bob"), None)
        .unwrap();

    // A wrong approval id is refused and nothing moves.
    let r = contract.internal_transfer(&acct("bob"), &acct("dave"), &tok("t1"), Some(1), None);
    assert_eq!(r.unwrap_err(), NftError::Unauthorized);
    assert_eq!(contract.tokens_by_id[0].1.owner_id.bytes, b"alice".to_vec());

    // The right approval id moves the token.
    let prev = contract
        .internal_transfer(&acct("bob"), &acct("dave"), &tok("t1"), Some(0), None)
        .unwrap();
    assert_eq!(prev.owner_id.bytes, b"alice".to_vec());
    assert_eq!(contract.tokens_by_id[0].1.owner_id.bytes, b"dave".to_vec());
}

#[test]
fn test_transfer_requires_authorization() {
    let mut contract = ledger_with_t1_owned_by_alice();
    let r = contract.internal_transfer(&acct("mallory"), &acct("mallory"), &tok("t1"), None, None);
    assert_eq!(r.unwrap_err(), NftError::Unauthorized);
    assert_eq!(contract.tokens_by_id[0].1.owner_id.bytes, b"alice".to_vec());
}

#[test]
fn test_transfer_token_not_found() {
    let mut contract = Contract::new();
    let r = contract.internal_transfer(&acct("alice"), &acct("bob"), &tok("t1"), None, None);
    assert_eq!(r.unwrap_err(), NftError::TokenNotFound);
}

#[test]
fn test_royalty_to_payout() {
    assert_eq!(royalty_to_payout(500, 1_000_000), 1_000_000 * 500 / 10_100);
    assert_eq!(royalty_to_payout(500, 1_000_000), 49_504);
    assert_eq!(royalty_to_payout(0, 1_000_000), 0);
    assert_eq!(royalty_to_payout(10_100, 7), 7);
}

#[test]
fn test_bytes_for_approved_account_id() {
    assert_eq!(bytes_for_approved_account_id(&acct("alice")), 17);
    assert_eq!(bytes_for_approved_account_id(&acct("bob")), 15);
}

#[test]
fn test_refund_deposit_cases() {
    let ok = refund_deposit(10, 100, 5, acct("alice")).unwrap().unwrap();
    assert_eq!(ok.amount, 50);
    assert_eq!(ok.receiver_id.bytes, b"alice".to_vec());
    let none = refund_deposit(10, 51, 5, acct("alice")).unwrap();
    assert!(none.is_none());
    let err = refund_deposit(10, 49, 5, acct("alice")).unwrap_err();
    assert_eq!(err, NftError::InsufficientDeposit);
}

#[test]
fn test_hash_account_id_is_sha256() {
    let digest = hash_account_id(&acct("abc"));
    let expected: Vec<u8> = vec![
        0xba, 0x78, 0x16, 0xbf, 0x8f, 0x01, 0xcf, 0xea, 0x41, 0x41, 0x40, 0xde, 0x5d, 0xae, 0x22,
        0x23, 0xb0, 0x03, 0x61, 0xa3, 0x96, 0x17, 0x7a, 0x9c, 0xb4, 0x10, 0xff, 0x61, 0xf2, 0x00,
        0x15, 0xad,
    ];
    assert_eq!(digest, expected);
}

#[test]
fn test_account_id_validation() {
    assert!(AccountId::new(b"a".to_vec()).is_none());
    assert!(AccountId::new(vec![b'x'; 65]).is_none());
    let ok = AccountId::new(b"alice.near".to_vec()).unwrap();
    assert_eq!(ok.bytes, b"alice.near".to_vec());
}

#[test]
fn test_sample_token_metadata() {
    let m = sample_token_metadata();
    assert_eq!(m.title.unwrap(), "Chacha NFT");
    assert_eq!(
        m.description.unwrap(),
        "This is an awesome NFT project and developed by Chacha"
    );
    assert!(m.media.is_none());
    assert!(m.copies.is_none());
    assert!(m.reference_hash.is_none());
}

#[test]
fn test_error_messages() {
    assert_eq!(NftError::Unauthorized.message(), "caller is not authorized");
    assert_eq!(NftError::TokenNotFound.message(), "no token with the given id");
}
