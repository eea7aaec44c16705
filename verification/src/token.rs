//! Tokens: owner, delegated-approval ledger, the per-token approval-id
//! counter, and royalty shares. The approval ledger is an association list
//! with unique keys; every stored approval id is strictly below the token's
//! `next_approval_id`, which only ever grows.

use vstd::prelude::*;
use vstd::string::StringExecFns;
use crate::assoc::{al_get, al_has, keys_unique, lemma_al_get_at, lemma_al_get_none, lemma_al_push, lemma_al_remove};
use crate::ids::{account_wf, AccountId};

verus! {

/// Token metadata, kept beside the registry entry; the ledger's logic never
/// reads it.
pub struct TokenMetadata {
    pub title: Option<String>,
    pub description: Option<String>,
    pub media: Option<String>,
    pub media_hash: Option<Vec<u8>>,
    pub copies: Option<u64>,
    pub issued_at: Option<u64>,
    pub expires_at: Option<u64>,
    pub starts_at: Option<u64>,
    pub updated_at: Option<u64>,
    pub extra: Option<String>,
    pub reference: Option<String>,
    pub reference_hash: Option<Vec<u8>>,
}

/// A metadata record with a title and description and nothing else.
pub fn sample_token_metadata() -> (m: TokenMetadata)
    ensures
        (m.title matches Some(t) && t@ == "Chacha NFT"@),
        (m.description matches Some(d) && d@
            == "This is an awesome NFT project and developed by Chacha"@),
        m.media is None,
        m.media_hash is None,
        m.copies is None,
        m.issued_at is None,
        m.expires_at is None,
        m.starts_at is None,
        m.updated_at is None,
        m.extra is None,
        m.reference is None,
        m.reference_hash is None,
{
    TokenMetadata {
        title: Some(String::from_str("Chacha NFT")),
        description: Some(
            String::from_str("This is an awesome NFT project and developed by Chacha"),
        ),
        media: None,
        media_hash: None,
        copies: None,
        issued_at: None,
        expires_at: None,
        starts_at: None,
        updated_at: None,
        extra: None,
        reference: None,
        reference_hash: None,
    }
}

/// The approval ledger and royalty map, seen abstractly: keys as byte strings.
pub open spec fn av(s: Seq<(AccountId, u64)>) -> Seq<(Seq<u8>, u64)> {
    s.map_values(|p: (AccountId, u64)| (p.0@, p.1))
}

pub open spec fn rv(s: Seq<(AccountId, u32)>) -> Seq<(Seq<u8>, u32)> {
    s.map_values(|p: (AccountId, u32)| (p.0@, p.1))
}

/// A well-formed approval ledger: unique, host-validated keys, and every
/// stored approval id strictly below the token's counter.
pub open spec fn approvals_wf(s: Seq<(Seq<u8>, u64)>, next_approval_id: u64) -> bool {
    &&& keys_unique(s)
    &&& forall|i: int|
        0 <= i < s.len() ==> account_wf(#[trigger] s[i].0) && s[i].1 < next_approval_id
}

/// A token as the contracts see it.
#[verifier::ext_equal]
pub ghost struct TokenV {
    pub owner_id: Seq<u8>,
    pub approved_account_ids: Seq<(Seq<u8>, u64)>,
    pub next_approval_id: u64,
    pub royalty: Seq<(Seq<u8>, u32)>,
}

impl TokenV {
    pub open spec fn wf(self) -> bool {
        &&& account_wf(self.owner_id)
        &&& approvals_wf(self.approved_account_ids, self.next_approval_id)
    }
}

/// A token: its current owner, the accounts approved to transfer it, the
/// monotonic approval-id counter, and the royalty shares.
#[derive(Debug)]
pub struct Token {
    pub owner_id: AccountId,
    pub approved_account_ids: Vec<(AccountId, u64)>,
    pub next_approval_id: u64,
    pub royalty: Vec<(AccountId, u32)>,
}

impl View for Token {
    type V = TokenV;

    open spec fn view(&self) -> TokenV {
        TokenV {
            owner_id: self.owner_id@,
            approved_account_ids: av(self.approved_account_ids@),
            next_approval_id: self.next_approval_id,
            royalty: rv(self.royalty@),
        }
    }
}

impl Token {
    /// An exact copy, field for field.
    pub fn duplicate(&self) -> (r: Token)
        ensures
            r@ == self@,
    {
        let r = Token {
            owner_id: self.owner_id.duplicate(),
            approved_account_ids: clone_approval_pairs(&self.approved_account_ids),
            next_approval_id: self.next_approval_id,
            royalty: clone_royalty_pairs(&self.royalty),
        };
        proof {
            assert(av(r.approved_account_ids@) =~= av(self.approved_account_ids@));
            assert(rv(r.royalty@) =~= rv(self.royalty@));
            assert(r@ =~= self@);
        }
        r
    }
}

fn clone_approval_pairs(list: &Vec<(AccountId, u64)>) -> (r: Vec<(AccountId, u64)>)
    ensures
        r@.len() == list@.len(),
        forall|j: int|
            0 <= j < list@.len() ==> (#[trigger] r@[j]).0@ == list@[j].0@ && r@[j].1 == list@[j].1,
{
    let mut out: Vec<(AccountId, u64)> = Vec::new();
    let mut i: usize = 0;
    while i < list.len()
        invariant
            0 <= i <= list@.len(),
            out@.len() == i,
            forall|j: int|
                0 <= j < i ==> (#[trigger] out@[j]).0@ == list@[j].0@ && out@[j].1 == list@[j].1,
        decreases list@.len() - i,
    {
        let entry = &list[i];
        out.push((entry.0.duplicate(), entry.1));
        i += 1;
    }
    out
}

fn clone_royalty_pairs(list: &Vec<(AccountId, u32)>) -> (r: Vec<(AccountId, u32)>)
    ensures
        r@.len() == list@.len(),
        forall|j: int|
            0 <= j < list@.len() ==> (#[trigger] r@[j]).0@ == list@[j].0@ && r@[j].1 == list@[j].1,
{
    let mut out: Vec<(AccountId, u32)> = Vec::new();
    let mut i: usize = 0;
    while i < list.len()
        invariant
            0 <= i <= list@.len(),
            out@.len() == i,
            forall|j: int|
                0 <= j < i ==> (#[trigger] out@[j]).0@ == list@[j].0@ && out@[j].1 == list@[j].1,
        decreases list@.len() - i,
    {
        let entry = &list[i];
        out.push((entry.0.duplicate(), entry.1));
        i += 1;
    }
    out
}

/// The approval id stored for an account, if any.
pub fn approvals_lookup(list: &Vec<(AccountId, u64)>, account: &AccountId) -> (r: Option<u64>)
    ensures
        r == al_get(av(list@), account@),
{
    let ghost s = av(list@);
    let mut i: usize = 0;
    while i < list.len()
        invariant
            0 <= i <= list@.len(),
            s == av(list@),
            forall|j: int| 0 <= j < i ==> (#[trigger] s[j]).0 != account@,
        decreases list@.len() - i,
    {
        let entry = &list[i];
        proof {
            assert(s[i as int] == (list@[i as int].0@, list@[i as int].1));
        }
        if entry.0.eq_id(account) {
            proof {
                lemma_al_get_at(s, account@, i as int);
            }
            return Some(entry.1);
        }
        i += 1;
    }
    proof {
        lemma_al_get_none(s, account@);
    }
    None
}

/// Grants a fresh approval entry. The caller has checked that the account has
/// no entry yet.
pub fn approvals_add_new(list: &mut Vec<(AccountId, u64)>, account: &AccountId, id: u64)
    requires
        !al_has(av(old(list)@), account@),
    ensures
        av(final(list)@) == av(old(list)@).push((account@, id)),
        al_get(av(final(list)@), account@) == Some(id),
        forall|k: Seq<u8>|
            k != account@ ==> al_get(av(final(list)@), k) == al_get(av(old(list)@), k),
        keys_unique(av(old(list)@)) ==> keys_unique(av(final(list)@)),
{
    list.push((account.duplicate(), id));
    proof {
        assert(av(list@) =~= av(old(list)@).push((account@, id)));
        lemma_al_push(av(old(list)@), account@, id);
    }
}

/// Revokes the account's entry if present; reports the removed approval id.
pub fn approvals_remove(list: &mut Vec<(AccountId, u64)>, account: &AccountId) -> (removed: Option<
    u64,
>)
    requires
        keys_unique(av(old(list)@)),
    ensures
        removed == al_get(av(old(list)@), account@),
        al_get(av(final(list)@), account@) is None,
        forall|k: Seq<u8>|
            k != account@ ==> al_get(av(final(list)@), k) == al_get(av(old(list)@), k),
        keys_unique(av(final(list)@)),
        (removed matches Some(v) ==> exists|i: int|
            0 <= i < av(old(list)@).len() && av(old(list)@)[i] == (account@, v) && av(
                final(list)@,
            ) == av(old(list)@).remove(i)),
        removed is None ==> final(list)@ == old(list)@,
{
    let ghost s = av(old(list)@);
    let mut i: usize = 0;
    while i < list.len()
        invariant
            0 <= i <= list@.len(),
            list@ == old(list)@,
            s == av(list@),
            keys_unique(s),
            forall|j: int| 0 <= j < i ==> (#[trigger] s[j]).0 != account@,
        decreases list@.len() - i,
    {
        proof {
            assert(s[i as int] == (list@[i as int].0@, list@[i as int].1));
        }
        let found = list[i].0.eq_id(account);
        if found {
            proof {
                lemma_al_get_at(s, account@, i as int);
                lemma_al_remove(s, i as int);
            }
            let removed_entry = list.remove(i);
            proof {
                assert(av(list@) =~= s.remove(i as int));
            }
            return Some(removed_entry.1);
        }
        i += 1;
    }
    proof {
        lemma_al_get_none(s, account@);
    }
    None
}

/// Revokes every entry at once.
pub fn approvals_clear(list: &mut Vec<(AccountId, u64)>)
    ensures
        av(final(list)@) == Seq::<(Seq<u8>, u64)>::empty(),
        final(list)@.len() == 0,
{
    list.clear();
    proof {
        assert(av(list@) =~= Seq::<(Seq<u8>, u64)>::empty());
    }
}

} // verus!
