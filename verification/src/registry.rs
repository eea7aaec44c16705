//! The token registry: the single source of truth for who owns each token and
//! who may move it, together with the ownership index, the approval
//! operations, and the transfer engine. Every mutating call either fully
//! applies or returns an error and leaves the registry untouched.

use vstd::prelude::*;
use crate::assoc::{al_get, al_has, keys_unique, lemma_al_get_at, lemma_al_get_none, lemma_al_get_some_exists, lemma_al_get_unique, lemma_al_push, lemma_al_update};
use crate::error::NftError;
use crate::ids::{account_wf, AccountId, TokenId};
use crate::storage::{approvals_bytes, bytes_for_approved_account_id, entry_bytes, refund_approved_account_ids, refund_deposit, Payment};
use crate::token::{approvals_add_new, approvals_clear, approvals_lookup, approvals_remove, Token, TokenMetadata, TokenV};

verus! {

/// What the host tells the ledger about the current call.
pub struct CallContext {
    /// The account that made the call.
    pub predecessor_id: AccountId,
    /// The payment attached to the call, in the smallest currency unit.
    pub attached_deposit: u128,
    /// The host's current price for one byte of persisted storage.
    pub storage_byte_cost: u128,
}

/// The cross-contract message telling an approved account's contract that it
/// was approved. The shell around the ledger delivers it; its outcome never
/// flows back into the ledger.
#[derive(Debug)]
pub struct ApprovalNotification {
    pub receiver_id: AccountId,
    pub token_id: TokenId,
    pub owner_id: AccountId,
    pub approval_id: u64,
    pub msg: String,
}

/// What a successful `nft_approve` asks the host to do.
#[derive(Debug)]
pub struct ApprovalOutcome {
    /// Surplus deposit to return to the caller, when worth returning.
    pub refund: Option<Payment>,
    /// Notification to send, when the caller supplied a payload.
    pub notification: Option<ApprovalNotification>,
}

/// The registry as the contracts see it: tokens keyed by token id, the
/// ownership index as a set of account-token pairs, and the keys of the
/// stored metadata records.
#[verifier::ext_equal]
pub ghost struct ContractV {
    pub tokens: Seq<(Seq<u8>, TokenV)>,
    pub owner_index: Seq<(Seq<u8>, Seq<u8>)>,
    pub metadata_keys: Seq<Seq<u8>>,
}

impl ContractV {
    /// The token stored under an id, if any.
    pub open spec fn token(self, t: Seq<u8>) -> Option<TokenV> {
        al_get(self.tokens, t)
    }

    pub open spec fn has_token(self, t: Seq<u8>) -> bool {
        al_has(self.tokens, t)
    }

    /// Whether the ownership index records the token under the account.
    pub open spec fn indexed(self, a: Seq<u8>, t: Seq<u8>) -> bool {
        exists|i: int| 0 <= i < self.owner_index.len() && self.owner_index[i] == (a, t)
    }

    /// Whether the account may transfer the token: it has an approval entry,
    /// and when an approval id is supplied the stored id equals it exactly.
    pub open spec fn is_approved(self, t: Seq<u8>, account: Seq<u8>, approval_id: Option<u64>) -> bool {
        match self.token(t) {
            Some(tok) => match al_get(tok.approved_account_ids, account) {
                Some(stored) => match approval_id {
                    Some(id) => stored == id,
                    None => true,
                },
                None => false,
            },
            None => false,
        }
    }

    /// The registry's global invariant: token keys are unique and every token
    /// is well formed; the ownership index holds each token at most once and
    /// is exactly the inverse of the owner field; and a metadata record is
    /// stored for exactly the registered token ids.
    pub open spec fn wf(self) -> bool {
        &&& keys_unique(self.tokens)
        &&& forall|i: int| 0 <= i < self.tokens.len() ==> (#[trigger] self.tokens[i]).1.wf()
        &&& forall|i: int, j: int|
            0 <= i < j < self.owner_index.len() ==> self.owner_index[i].1 != self.owner_index[j].1
        &&& forall|i: int|
            0 <= i < self.owner_index.len() ==> (al_get(
                self.tokens,
                (#[trigger] self.owner_index[i]).1,
            ) matches Some(tok) && tok.owner_id == self.owner_index[i].0)
        &&& forall|i: int|
            0 <= i < self.tokens.len() ==> self.indexed(
                (#[trigger] self.tokens[i]).1.owner_id,
                self.tokens[i].0,
            )
        &&& forall|i: int, j: int|
            0 <= i < j < self.metadata_keys.len() ==> self.metadata_keys[i]
                != self.metadata_keys[j]
        &&& forall|i: int| 0 <= i < self.metadata_keys.len() ==> al_has(self.tokens, #[trigger] self.metadata_keys[i])
        &&& forall|i: int|
            0 <= i < self.tokens.len() ==> self.metadata_keys.contains(
                (#[trigger] self.tokens[i]).0,
            )
        &&& self.metadata_keys.len() == self.tokens.len()
    }
}

/// Whether granting one more approval for the token keeps the approval-id
/// counter representable.
pub open spec fn next_id_ok(c: ContractV, t: Seq<u8>) -> bool {
    match al_get(c.tokens, t) {
        Some(tok) => tok.next_approval_id < u64::MAX,
        None => true,
    }
}

/// The approval id a grant hands out: the stored id when the grantee is
/// already approved, else the token's next fresh id.
pub open spec fn granted_approval_id(tok: TokenV, grantee: Seq<u8>) -> u64 {
    match al_get(tok.approved_account_ids, grantee) {
        Some(id) => id,
        None => tok.next_approval_id,
    }
}

/// Whether the sender may transfer the token: it owns it, or it holds an
/// approval entry whose id matches the supplied one if any was supplied.
pub open spec fn transfer_authorized(tok: TokenV, sender: Seq<u8>, approval_id: Option<u64>) -> bool {
    ||| tok.owner_id == sender
    ||| (al_get(tok.approved_account_ids, sender) matches Some(stored) && (approval_id matches Some(
        id,
    ) ==> stored == id))
}

/// Law: in a well-formed registry the ownership index is exactly the inverse
/// of the owner field: an account-token pair is indexed iff that token is
/// registered with that account as its owner. Because lookup is a function of
/// the token id, each token has exactly one owner.
pub proof fn lemma_ownership_index_exact(c: ContractV)
    requires
        c.wf(),
    ensures
        forall|a: Seq<u8>, t: Seq<u8>|
            c.indexed(a, t) <==> (c.token(t) matches Some(tok) && tok.owner_id == a),
{
    assert forall|a: Seq<u8>, t: Seq<u8>|
        c.indexed(a, t) <==> (c.token(t) matches Some(tok) && tok.owner_id == a) by {
        if c.indexed(a, t) {
            let w = choose|w: int| 0 <= w < c.owner_index.len() && c.owner_index[w] == (a, t);
            assert(al_get(c.tokens, c.owner_index[w].1) is Some);
        }
        if c.token(t) is Some && c.token(t).unwrap().owner_id == a {
            let tok = c.token(t).unwrap();
            lemma_al_get_some_exists(c.tokens, t, tok);
            let w = choose|w: int| 0 <= w < c.tokens.len() && c.tokens[w] == (t, tok);
            assert(c.indexed(c.tokens[w].1.owner_id, c.tokens[w].0));
        }
    }
}

/// Law: in a well-formed registry every stored approval id is strictly below
/// its token's `next_approval_id`; the counter never decreases and grants are
/// the only thing that moves it, so no approval id is ever reused.
pub proof fn lemma_approval_ids_below_counter(c: ContractV)
    requires
        c.wf(),
    ensures
        forall|t: Seq<u8>, a: Seq<u8>|
            (#[trigger] c.is_approved(t, a, None::<u64>)) ==> (c.token(t) matches Some(tok)
                && al_get(tok.approved_account_ids, a).unwrap() < tok.next_approval_id),
{
    assert forall|t: Seq<u8>, a: Seq<u8>| #[trigger]
        c.is_approved(t, a, None::<u64>) implies (c.token(t) matches Some(tok) && al_get(
        tok.approved_account_ids,
        a,
    ).unwrap() < tok.next_approval_id) by {
        if c.token(t) is Some {
            let tok = c.token(t).unwrap();
            lemma_al_get_some_exists(c.tokens, t, tok);
            let w = choose|w: int| 0 <= w < c.tokens.len() && c.tokens[w] == (t, tok);
            assert(c.tokens[w].1.wf());
            if al_get(tok.approved_account_ids, a) is Some {
                let id = al_get(tok.approved_account_ids, a).unwrap();
                lemma_al_get_some_exists(tok.approved_account_ids, a, id);
            }
        }
    }
}

/// Deposit needed to cover an approval's storage: the marginal bytes of one
/// new entry priced per byte, and nothing when the grantee is already
/// approved.
pub open spec fn required_approval_cost(tok: TokenV, grantee: Seq<u8>, storage_byte_cost: u128) -> int {
    if al_has(tok.approved_account_ids, grantee) {
        0
    } else {
        entry_bytes(grantee) * storage_byte_cost
    }
}

/// Rebinding one token entry, with its owner and the rest of the registry
/// untouched, keeps the registry well formed.
proof fn lemma_token_update_wf(pre: ContractV, post: ContractV, idx: int, tid: Seq<u8>, new_tv: TokenV)
    requires
        pre.wf(),
        0 <= idx < pre.tokens.len(),
        pre.tokens[idx].0 == tid,
        new_tv.wf(),
        new_tv.owner_id == pre.tokens[idx].1.owner_id,
        post.tokens == pre.tokens.update(idx, (tid, new_tv)),
        post.owner_index == pre.owner_index,
        post.metadata_keys == pre.metadata_keys,
    ensures
        post.wf(),
        post.token(tid) == Some(new_tv),
        forall|t: Seq<u8>| t != tid ==> post.token(t) == pre.token(t),
        forall|a: Seq<u8>, t: Seq<u8>| post.indexed(a, t) <==> pre.indexed(a, t),
{
    lemma_al_update(pre.tokens, idx, new_tv);
    lemma_al_get_unique(pre.tokens, tid, idx);
    assert forall|i: int| 0 <= i < post.tokens.len() implies (#[trigger] post.tokens[i]).1.wf() by {
        if i != idx {
            assert(post.tokens[i] == pre.tokens[i]);
        }
    }
    assert forall|i: int| 0 <= i < post.owner_index.len() implies (al_get(
        post.tokens,
        (#[trigger] post.owner_index[i]).1,
    ) matches Some(tok) && tok.owner_id == post.owner_index[i].0) by {
        if pre.owner_index[i].1 == tid {
            assert(al_get(pre.tokens, tid) == Some(pre.tokens[idx].1));
            assert(al_get(post.tokens, tid) == Some(new_tv));
        } else {
            assert(al_get(post.tokens, pre.owner_index[i].1) == al_get(
                pre.tokens,
                pre.owner_index[i].1,
            ));
        }
    }
    assert forall|i: int| 0 <= i < post.tokens.len() implies post.indexed(
        (#[trigger] post.tokens[i]).1.owner_id,
        post.tokens[i].0,
    ) by {
        if i != idx {
            assert(post.tokens[i] == pre.tokens[i]);
            assert(pre.indexed(pre.tokens[i].1.owner_id, pre.tokens[i].0));
        } else {
            assert(pre.indexed(pre.tokens[idx].1.owner_id, pre.tokens[idx].0));
        }
    }
    assert forall|i: int| 0 <= i < post.metadata_keys.len() implies al_has(
        post.tokens,
        #[trigger] post.metadata_keys[i],
    ) by {
        if post.metadata_keys[i] == tid {
            assert(al_get(post.tokens, tid) == Some(new_tv));
        } else {
            assert(al_get(post.tokens, post.metadata_keys[i]) == al_get(
                pre.tokens,
                pre.metadata_keys[i],
            ));
        }
    }
    assert forall|i: int| 0 <= i < post.tokens.len() implies post.metadata_keys.contains(
        (#[trigger] post.tokens[i]).0,
    ) by {
        assert(pre.metadata_keys.contains(pre.tokens[i].0));
        if i != idx {
            assert(post.tokens[i] == pre.tokens[i]);
        } else {
            assert(post.tokens[i].0 == pre.tokens[i].0);
        }
    }
}

/// After a transfer the registry is well formed again: the token's entry was
/// rebound to the receiver with no approvals, the old owner's index pair was
/// replaced by the receiver's, and nothing else moved.
proof fn lemma_transfer_restores_wf(
    pre: ContractV,
    post: ContractV,
    idx: int,
    j: int,
    tid: Seq<u8>,
    receiver: Seq<u8>,
    prev_tv: TokenV,
    new_tv: TokenV,
)
    requires
        pre.wf(),
        0 <= idx < pre.tokens.len(),
        pre.tokens[idx] == (tid, prev_tv),
        0 <= j < pre.owner_index.len(),
        pre.owner_index[j] == (prev_tv.owner_id, tid),
        account_wf(receiver),
        new_tv == (TokenV {
            owner_id: receiver,
            approved_account_ids: Seq::<(Seq<u8>, u64)>::empty(),
            next_approval_id: prev_tv.next_approval_id,
            royalty: prev_tv.royalty,
        }),
        post.tokens == pre.tokens.update(idx, (tid, new_tv)),
        post.owner_index == pre.owner_index.remove(j).push((receiver, tid)),
        post.metadata_keys == pre.metadata_keys,
    ensures
        post.wf(),
        post.token(tid) == Some(new_tv),
        forall|t: Seq<u8>| t != tid ==> post.token(t) == pre.token(t),
        forall|a: Seq<u8>, id: Option<u64>| !post.is_approved(tid, a, id),
        forall|a: Seq<u8>, t: Seq<u8>|
            post.indexed(a, t) <==> if t == tid {
                a == receiver
            } else {
                pre.indexed(a, t)
            },
{
    lemma_al_update(pre.tokens, idx, new_tv);
    let rm = pre.owner_index.remove(j);
    let rmlen = rm.len() as int;
    assert(forall|w: int| 0 <= w < j ==> rm[w] == pre.owner_index[w]);
    assert(forall|w: int| j <= w < rmlen ==> rm[w] == pre.owner_index[w + 1]);
    // No remaining index pair mentions the transferred token.
    assert forall|w: int| 0 <= w < rmlen implies (#[trigger] rm[w]).1 != tid by {
        if w < j {
            assert(pre.owner_index[w].1 != pre.owner_index[j].1);
        } else {
            assert(pre.owner_index[j].1 != pre.owner_index[w + 1].1);
        }
    }
    assert(forall|w: int| 0 <= w < rmlen ==> post.owner_index[w] == rm[w]);
    assert(post.owner_index[rmlen] == (receiver, tid));
    // Tokens are still well formed.
    assert forall|i: int| 0 <= i < post.tokens.len() implies (#[trigger] post.tokens[i]).1.wf() by {
        if i != idx {
            assert(post.tokens[i] == pre.tokens[i]);
        } else {
            assert(post.tokens[i].1 == new_tv);
        }
    }
    // The index still holds each token at most once.
    assert forall|w1: int, w2: int| 0 <= w1 < w2 < post.owner_index.len() implies post.owner_index[w1].1 != post.owner_index[w2].1 by {
        if w2 < rmlen {
            let p1 = if w1 < j { w1 } else { w1 + 1 };
            let p2 = if w2 < j { w2 } else { w2 + 1 };
            assert(pre.owner_index[p1].1 != pre.owner_index[p2].1);
        } else {
            assert(rm[w1].1 != tid);
        }
    }
    // Every index pair points at its token.
    assert forall|w: int| 0 <= w < post.owner_index.len() implies (al_get(
        post.tokens,
        (#[trigger] post.owner_index[w]).1,
    ) matches Some(tok) && tok.owner_id == post.owner_index[w].0) by {
        if w < rmlen {
            let p = if w < j { w } else { w + 1 };
            assert(pre.owner_index[p].1 != tid);
            assert(al_get(post.tokens, pre.owner_index[p].1) == al_get(
                pre.tokens,
                pre.owner_index[p].1,
            ));
        } else {
            assert(post.owner_index[w] == (receiver, tid));
        }
    }
    // Every token is still indexed under its owner.
    assert forall|i: int| 0 <= i < post.tokens.len() implies post.indexed(
        (#[trigger] post.tokens[i]).1.owner_id,
        post.tokens[i].0,
    ) by {
        if i == idx {
            assert(post.owner_index[rmlen] == (receiver, tid));
            assert(post.tokens[i] == (tid, new_tv));
        } else {
            assert(post.tokens[i] == pre.tokens[i]);
            assert(pre.tokens[i].0 != pre.tokens[idx].0);
            assert(pre.indexed(pre.tokens[i].1.owner_id, pre.tokens[i].0));
            let w = choose|w: int|
                0 <= w < pre.owner_index.len() && pre.owner_index[w] == (
                    pre.tokens[i].1.owner_id,
                    pre.tokens[i].0,
                );
            assert(w != j);
            let wp = if w < j {
                w
            } else {
                w - 1
            };
            assert(post.owner_index[wp] == (pre.tokens[i].1.owner_id, pre.tokens[i].0));
        }
    }
    // Metadata keys still match the token keys.
    assert(forall|i: int|
        0 <= i < post.tokens.len() ==> (#[trigger] post.tokens[i]).0 == pre.tokens[i].0);
    assert forall|i: int| 0 <= i < post.metadata_keys.len() implies al_has(
        post.tokens,
        #[trigger] post.metadata_keys[i],
    ) by {
        if post.metadata_keys[i] == tid {
            assert(al_get(post.tokens, tid) == Some(new_tv));
        } else {
            assert(al_get(post.tokens, post.metadata_keys[i]) == al_get(
                pre.tokens,
                pre.metadata_keys[i],
            ));
        }
    }
    assert forall|i: int| 0 <= i < post.tokens.len() implies post.metadata_keys.contains(
        (#[trigger] post.tokens[i]).0,
    ) by {
        assert(pre.metadata_keys.contains(pre.tokens[i].0));
    }
    // No approval survives the transfer.
    assert forall|a: Seq<u8>, id: Option<u64>| !post.is_approved(tid, a, id) by {
        assert(al_get(new_tv.approved_account_ids, a) is None);
    }
    // The index relation changed only at the transferred token.
    assert forall|a: Seq<u8>, t: Seq<u8>|
        post.indexed(a, t) <==> if t == tid {
            a == receiver
        } else {
            pre.indexed(a, t)
        } by {
        if post.indexed(a, t) {
            let w = choose|w: int|
                0 <= w < post.owner_index.len() && post.owner_index[w] == (a, t);
            if w < rmlen {
                let p = if w < j { w } else { w + 1 };
                assert(pre.owner_index[p] == (a, t));
                assert(rm[w].1 != tid);
            } else {
                assert(post.owner_index[w] == (receiver, tid));
            }
        }
        if t == tid && a == receiver {
            assert(post.owner_index[rmlen] == (a, t));
            assert(post.indexed(a, t));
        }
        if t != tid && pre.indexed(a, t) {
            let w = choose|w: int|
                0 <= w < pre.owner_index.len() && pre.owner_index[w] == (a, t);
            assert(w != j);
            let wp = if w < j {
                w
            } else {
                w - 1
            };
            assert(post.owner_index[wp] == (a, t));
            assert(post.indexed(a, t));
        }
    }
}

/// The non-fungible-token ledger.
pub struct Contract {
    pub tokens_by_id: Vec<(TokenId, Token)>,
    pub tokens_per_owner: Vec<(AccountId, TokenId)>,
    pub token_metadata_by_id: Vec<(TokenId, TokenMetadata)>,
}

impl View for Contract {
    type V = ContractV;

    open spec fn view(&self) -> ContractV {
        ContractV {
            tokens: self.tokens_by_id@.map_values(|p: (TokenId, Token)| (p.0@, p.1@)),
            owner_index: self.tokens_per_owner@.map_values(
                |p: (AccountId, TokenId)| (p.0@, p.1@),
            ),
            metadata_keys: self.token_metadata_by_id@.map_values(|p: (TokenId, TokenMetadata)| p.0@),
        }
    }
}

impl Contract {
    pub open spec fn wf(self) -> bool {
        self@.wf()
    }

    /// An empty registry.
    pub fn new() -> (c: Contract)
        ensures
            c.wf(),
            c@.tokens.len() == 0,
            c@.owner_index.len() == 0,
            c@.metadata_keys.len() == 0,
    {
        let c = Contract {
            tokens_by_id: Vec::new(),
            tokens_per_owner: Vec::new(),
            token_metadata_by_id: Vec::new(),
        };
        proof {
            assert(c@.tokens =~= Seq::<(Seq<u8>, TokenV)>::empty());
            assert(c@.owner_index =~= Seq::<(Seq<u8>, Seq<u8>)>::empty());
            assert(c@.metadata_keys =~= Seq::<Seq<u8>>::empty());
        }
        c
    }

    /// The number of tokens on the ledger.
    pub fn nft_total_supply(&self) -> (supply: u128)
        requires
            self.wf(),
        ensures
            supply == self@.tokens.len(),
            supply == self@.metadata_keys.len(),
    {
        self.token_metadata_by_id.len() as u128
    }

    /// Whether the registry holds a token under this id.
    pub fn contains_token(&self, token_id: &TokenId) -> (r: bool)
        ensures
            r == self@.has_token(token_id@),
    {
        self.find_token_index(token_id).is_some()
    }

    /// Whether one more approval can be granted for the token without
    /// exhausting its approval-id space.
    pub fn next_approval_id_ok(&self, token_id: &TokenId) -> (r: bool)
        requires
            self.wf(),
        ensures
            r == next_id_ok(self@, token_id@),
    {
        match self.find_token_index(token_id) {
            Some(idx) => {
                proof {
                    assert(self@.tokens[idx as int] == (self.tokens_by_id@[idx as int].0@,
                    self.tokens_by_id@[idx as int].1@));
                    lemma_al_get_unique(self@.tokens, token_id@, idx as int);
                }
                let tok = &self.tokens_by_id[idx].1;
                tok.next_approval_id < u64::MAX
            },
            None => true,
        }
    }

    /// Index of the token's entry in the backing vector.
    fn find_token_index(&self, token_id: &TokenId) -> (r: Option<usize>)
        ensures
            match r {
                Some(i) => i < self.tokens_by_id@.len() && self.tokens_by_id@[i as int].0@
                    == token_id@ && self@.has_token(token_id@),
                None => !self@.has_token(token_id@),
            },
    {
        let ghost s = self@.tokens;
        let mut i: usize = 0;
        while i < self.tokens_by_id.len()
            invariant
                0 <= i <= self.tokens_by_id@.len(),
                s == self@.tokens,
                forall|j: int| 0 <= j < i ==> (#[trigger] s[j]).0 != token_id@,
            decreases self.tokens_by_id@.len() - i,
        {
            proof {
                assert(s[i as int] == (self.tokens_by_id@[i as int].0@,
                self.tokens_by_id@[i as int].1@));
            }
            if self.tokens_by_id[i].0.eq_id(token_id) {
                proof {
                    lemma_al_get_at(s, token_id@, i as int);
                }
                return Some(i);
            }
            i += 1;
        }
        proof {
            lemma_al_get_none(s, token_id@);
        }
        None
    }

    /// Index of the (account, token) pair in the ownership index, if present.
    fn find_owner_pair(&self, account_id: &AccountId, token_id: &TokenId) -> (r: Option<usize>)
        ensures
            match r {
                Some(i) => i < self.tokens_per_owner@.len() && self@.owner_index[i as int] == (
                    account_id@,
                    token_id@,
                ),
                None => !self@.indexed(account_id@, token_id@),
            },
    {
        let ghost s = self@.owner_index;
        let mut i: usize = 0;
        while i < self.tokens_per_owner.len()
            invariant
                0 <= i <= self.tokens_per_owner@.len(),
                s == self@.owner_index,
                forall|j: int| 0 <= j < i ==> (#[trigger] s[j]) != (account_id@, token_id@),
            decreases self.tokens_per_owner@.len() - i,
        {
            proof {
                assert(s[i as int] == (self.tokens_per_owner@[i as int].0@,
                self.tokens_per_owner@[i as int].1@));
            }
            let entry = &self.tokens_per_owner[i];
            if entry.0.eq_id(account_id) && entry.1.eq_id(token_id) {
                return Some(i);
            }
            i += 1;
        }
        proof {
            assert forall|i: int| 0 <= i < s.len() implies s[i] != (account_id@, token_id@) by {}
        }
        None
    }

    /// Registers a fresh token: owned by `owner_id`, no approvals granted,
    /// approval-id counter at zero, no royalty shares.
    pub fn nft_mint(&mut self, token_id: &TokenId, owner_id: &AccountId, metadata: TokenMetadata)
        requires
            old(self).wf(),
            owner_id.wf(),
            !old(self)@.has_token(token_id@),
        ensures
            final(self).wf(),
            final(self)@.token(token_id@) == Some(
                TokenV {
                    owner_id: owner_id@,
                    approved_account_ids: Seq::<(Seq<u8>, u64)>::empty(),
                    next_approval_id: 0u64,
                    royalty: Seq::<(Seq<u8>, u32)>::empty(),
                },
            ),
            forall|t: Seq<u8>| t != token_id@ ==> final(self)@.token(t) == old(self)@.token(t),
            forall|a: Seq<u8>, t: Seq<u8>|
                final(self)@.indexed(a, t) <==> (old(self)@.indexed(a, t) || (a == owner_id@ && t
                    == token_id@)),
            final(self)@.tokens.len() == old(self)@.tokens.len() + 1,
    {
        let token = Token {
            owner_id: owner_id.duplicate(),
            approved_account_ids: Vec::new(),
            next_approval_id: 0,
            royalty: Vec::new(),
        };
        let ghost pre = self@;
        let ghost tv = TokenV {
            owner_id: owner_id@,
            approved_account_ids: Seq::<(Seq<u8>, u64)>::empty(),
            next_approval_id: 0u64,
            royalty: Seq::<(Seq<u8>, u32)>::empty(),
        };
        proof {
            assert(token@ =~= tv);
            assert(tv.approved_account_ids =~= crate::token::av(Seq::<(AccountId, u64)>::empty()));
        }
        self.tokens_by_id.push((token_id.duplicate(), token));
        self.internal_add_token_to_owner(owner_id, token_id);
        self.token_metadata_by_id.push((token_id.duplicate(), metadata));
        proof {
            let post = self@;
            assert(post.tokens =~= pre.tokens.push((token_id@, tv)));
            assert(post.owner_index =~= pre.owner_index.push((owner_id@, token_id@)));
            assert(post.metadata_keys =~= pre.metadata_keys.push(token_id@));
            lemma_al_push(pre.tokens, token_id@, tv);
            // No index pair can already mention the fresh token.
            assert forall|i: int| 0 <= i < pre.owner_index.len() implies pre.owner_index[i].1
                != token_id@ by {
                assert(al_get(pre.tokens, pre.owner_index[i].1) is Some);
            }
            // Index pairs still point at their tokens.
            assert forall|i: int| 0 <= i < post.owner_index.len() implies (al_get(
                post.tokens,
                (#[trigger] post.owner_index[i]).1,
            ) matches Some(tok) && tok.owner_id == post.owner_index[i].0) by {
                if i < pre.owner_index.len() {
                    assert(post.owner_index[i] == pre.owner_index[i]);
                } else {
                    assert(post.owner_index[i] == (owner_id@, token_id@));
                }
            }
            // Every token is still indexed under its owner.
            assert forall|i: int| 0 <= i < post.tokens.len() implies post.indexed(
                (#[trigger] post.tokens[i]).1.owner_id,
                post.tokens[i].0,
            ) by {
                if i < pre.tokens.len() {
                    assert(pre.indexed(pre.tokens[i].1.owner_id, pre.tokens[i].0));
                    let w = choose|w: int|
                        0 <= w < pre.owner_index.len() && pre.owner_index[w] == (
                            pre.tokens[i].1.owner_id,
                            pre.tokens[i].0,
                        );
                    assert(post.owner_index[w] == (post.tokens[i].1.owner_id, post.tokens[i].0));
                } else {
                    assert(post.owner_index[post.owner_index.len() - 1] == (owner_id@, token_id@));
                }
            }
            // No metadata record exists for the fresh token yet.
            assert forall|i: int| 0 <= i < pre.metadata_keys.len() implies pre.metadata_keys[i]
                != token_id@ by {
                assert(al_has(pre.tokens, pre.metadata_keys[i]));
            }
            assert forall|i: int| 0 <= i < post.metadata_keys.len() implies al_has(
                post.tokens,
                #[trigger] post.metadata_keys[i],
            ) by {
                if i < pre.metadata_keys.len() {
                    assert(al_has(pre.tokens, pre.metadata_keys[i]));
                    assert(pre.metadata_keys[i] != token_id@);
                } else {
                    assert(post.metadata_keys[i] == token_id@);
                }
            }
            assert forall|i: int| 0 <= i < post.tokens.len() implies post.metadata_keys.contains(
                (#[trigger] post.tokens[i]).0,
            ) by {
                if i < pre.tokens.len() {
                    assert(pre.metadata_keys.contains(pre.tokens[i].0));
                    let w = choose|w: int|
                        0 <= w < pre.metadata_keys.len() && pre.metadata_keys[w] == pre.tokens[i].0;
                    assert(post.metadata_keys[w] == post.tokens[i].0);
                } else {
                    assert(post.metadata_keys[post.metadata_keys.len() - 1] == post.tokens[i].0);
                }
            }
            // The new index relation is the old one plus the fresh pair.
            assert forall|a: Seq<u8>, t: Seq<u8>|
                post.indexed(a, t) <==> (pre.indexed(a, t) || (a == owner_id@ && t
                    == token_id@)) by {
                if post.indexed(a, t) {
                    let w = choose|w: int|
                        0 <= w < post.owner_index.len() && post.owner_index[w] == (a, t);
                    if w < pre.owner_index.len() {
                        assert(pre.owner_index[w] == (a, t));
                    }
                }
                if pre.indexed(a, t) {
                    let w = choose|w: int|
                        0 <= w < pre.owner_index.len() && pre.owner_index[w] == (a, t);
                    assert(post.owner_index[w] == (a, t));
                }
                if a == owner_id@ && t == token_id@ {
                    assert(post.owner_index[post.owner_index.len() - 1] == (a, t));
                }
            }
        }
    }

    /// Pure read: whether `approved_account_id` holds an approval for the
    /// token, with the stored id equal to `approval_id` when one is supplied.
    pub fn nft_is_approved(
        &self,
        token_id: &TokenId,
        approved_account_id: &AccountId,
        approval_id: Option<u64>,
    ) -> (r: bool)
        requires
            self.wf(),
            self@.has_token(token_id@),
        ensures
            r == self@.is_approved(token_id@, approved_account_id@, approval_id),
    {
        match self.find_token_index(token_id) {
            Some(idx) => {
                proof {
                    lemma_al_get_unique(self@.tokens, token_id@, idx as int);
                    assert(self@.tokens[idx as int] == (self.tokens_by_id@[idx as int].0@,
                    self.tokens_by_id@[idx as int].1@));
                }
                let tok = &self.tokens_by_id[idx].1;
                match approvals_lookup(&tok.approved_account_ids, approved_account_id) {
                    Some(stored) => match approval_id {
                        Some(id) => stored == id,
                        None => true,
                    },
                    None => false,
                }
            },
            None => false,
        }
    }

    /// Grants `account_id` the right to transfer the token. Only the owner
    /// may call this, attaching at least the marginal storage cost of the new
    /// entry. A grantee that is already approved keeps its approval id and
    /// nothing is charged; a new grantee is assigned the token's next
    /// approval id and the counter moves up. The surplus deposit flows back
    /// as a refund, and a supplied payload becomes an outbound notification
    /// whose outcome never rolls the approval back.
    pub fn nft_approve(
        &mut self,
        ctx: &CallContext,
        token_id: &TokenId,
        account_id: &AccountId,
        msg: Option<String>,
    ) -> (r: Result<ApprovalOutcome, NftError>)
        requires
            old(self).wf(),
            account_id.wf(),
            next_id_ok(old(self)@, token_id@),
        ensures
            final(self).wf(),
            r is Err ==> *final(self) == *old(self),
            r == Err::<ApprovalOutcome, NftError>(NftError::TokenNotFound) <==> !old(
                self,
            )@.has_token(token_id@),
            r == Err::<ApprovalOutcome, NftError>(NftError::Unauthorized) <==> (old(self)@.token(
                token_id@,
            ) matches Some(tok) && tok.owner_id != ctx.predecessor_id@),
            r == Err::<ApprovalOutcome, NftError>(NftError::InsufficientDeposit) <==> (old(
                self,
            )@.token(token_id@) matches Some(tok) && tok.owner_id == ctx.predecessor_id@
                && ctx.attached_deposit < required_approval_cost(
                tok,
                account_id@,
                ctx.storage_byte_cost,
            )),
            r is Ok <==> (old(self)@.token(token_id@) matches Some(tok) && tok.owner_id
                == ctx.predecessor_id@ && ctx.attached_deposit >= required_approval_cost(
                tok,
                account_id@,
                ctx.storage_byte_cost,
            )),
            r matches Ok(out) ==> (old(self)@.token(token_id@) matches Some(tok) && {
                let granted = granted_approval_id(tok, account_id@);
                let was_approved = al_has(tok.approved_account_ids, account_id@);
                &&& (final(self)@.token(token_id@) matches Some(tok2) && {
                    &&& al_get(tok2.approved_account_ids, account_id@) == Some(granted)
                    &&& forall|k: Seq<u8>|
                        k != account_id@ ==> al_get(tok2.approved_account_ids, k) == al_get(
                            tok.approved_account_ids,
                            k,
                        )
                    &&& tok2.next_approval_id == tok.next_approval_id + (
                    if was_approved {
                        0int
                    } else {
                        1int
                    })
                    &&& tok2.owner_id == tok.owner_id
                    &&& tok2.royalty == tok.royalty
                })
                &&& forall|t: Seq<u8>|
                    t != token_id@ ==> final(self)@.token(t) == old(self)@.token(t)
                &&& final(self)@.owner_index == old(self)@.owner_index
                &&& final(self)@.metadata_keys == old(self)@.metadata_keys
                &&& (out.refund matches Some(p) ==> p.receiver_id@ == ctx.predecessor_id@
                    && p.amount == ctx.attached_deposit - required_approval_cost(
                    tok,
                    account_id@,
                    ctx.storage_byte_cost,
                ))
                &&& (out.refund is Some <==> ctx.attached_deposit - required_approval_cost(
                    tok,
                    account_id@,
                    ctx.storage_byte_cost,
                ) > 1)
                &&& (out.notification is Some <==> msg is Some)
                &&& (out.notification matches Some(n) ==> n.receiver_id@ == account_id@
                    && n.token_id@ == token_id@ && n.owner_id@ == tok.owner_id && n.approval_id
                    == granted && (msg matches Some(m) && n.msg@ == m@))
            }),
    {
        let idx = match self.find_token_index(token_id) {
            Some(i) => i,
            None => {
                return Err(NftError::TokenNotFound);
            },
        };
        let ghost pre = self@;
        let ghost prev_tv = pre.tokens[idx as int].1;
        proof {
            assert(pre.tokens[idx as int] == (self.tokens_by_id@[idx as int].0@,
            self.tokens_by_id@[idx as int].1@));
            lemma_al_get_unique(pre.tokens, token_id@, idx as int);
        }
        let owner_ok = {
            let tok = &self.tokens_by_id[idx].1;
            ctx.predecessor_id.eq_id(&tok.owner_id)
        };
        if !owner_ok {
            return Err(NftError::Unauthorized);
        }
        let existing = {
            let tok = &self.tokens_by_id[idx].1;
            approvals_lookup(&tok.approved_account_ids, account_id)
        };
        let storage_used: u64 = match existing {
            Some(_) => 0,
            None => bytes_for_approved_account_id(account_id),
        };
        proof {
            assert(required_approval_cost(prev_tv, account_id@, ctx.storage_byte_cost)
                == storage_used as int * ctx.storage_byte_cost as int);
        }
        let refund = match refund_deposit(
            storage_used,
            ctx.attached_deposit,
            ctx.storage_byte_cost,
            ctx.predecessor_id.duplicate(),
        ) {
            Ok(p) => p,
            Err(e) => {
                return Err(e);
            },
        };
        let approval_id: u64;
        match existing {
            Some(id) => {
                approval_id = id;
            },
            None => {
                let ghost pre_vec = self.tokens_by_id@;
                let (entry_id, mut token) = self.tokens_by_id.remove(idx);
                approval_id = token.next_approval_id;
                approvals_add_new(&mut token.approved_account_ids, account_id, approval_id);
                token.next_approval_id = token.next_approval_id + 1;
                self.tokens_by_id.insert(idx, (entry_id, token));
                proof {
                    vstd::seq_lib::lemma_update_is_remove_insert(
                        pre_vec,
                        idx as int,
                        (entry_id, token),
                    );
                    let new_tv = TokenV {
                        owner_id: prev_tv.owner_id,
                        approved_account_ids: prev_tv.approved_account_ids.push(
                            (account_id@, approval_id),
                        ),
                        next_approval_id: (prev_tv.next_approval_id + 1) as u64,
                        royalty: prev_tv.royalty,
                    };
                    assert(token@ =~= new_tv);
                    assert(self@.tokens =~= pre.tokens.update(idx as int, (token_id@, new_tv)));
                    let na = new_tv.approved_account_ids;
                    assert forall|w: int| 0 <= w < na.len() implies account_wf(
                        (#[trigger] na[w]).0,
                    ) && na[w].1 < new_tv.next_approval_id by {
                        if w < prev_tv.approved_account_ids.len() {
                            assert(na[w] == prev_tv.approved_account_ids[w]);
                        } else {
                            assert(na[w] == (account_id@, approval_id));
                        }
                    }
                    lemma_al_push(prev_tv.approved_account_ids, account_id@, approval_id);
                    lemma_token_update_wf(pre, self@, idx as int, token_id@, new_tv);
                }
            },
        }
        let notification = match msg {
            Some(m) => Some(
                ApprovalNotification {
                    receiver_id: account_id.duplicate(),
                    token_id: token_id.duplicate(),
                    owner_id: ctx.predecessor_id.duplicate(),
                    approval_id,
                    msg: m,
                },
            ),
            None => None,
        };
        Ok(ApprovalOutcome { refund, notification })
    }

    /// Revokes `account_id`'s approval for the token. Only the owner may call
    /// this, attaching exactly one smallest currency unit as explicit intent;
    /// removing an absent entry is not an error. The storage-byte cost of the
    /// removed entry flows back to the caller.
    pub fn nft_remove(
        &mut self,
        ctx: &CallContext,
        token_id: &TokenId,
        account_id: &AccountId,
    ) -> (r: Result<Option<Payment>, NftError>)
        requires
            old(self).wf(),
        ensures
            final(self).wf(),
            r is Err ==> *final(self) == *old(self),
            r == Err::<Option<Payment>, NftError>(NftError::TokenNotFound) <==> !old(
                self,
            )@.has_token(token_id@),
            r == Err::<Option<Payment>, NftError>(NftError::Unauthorized) <==> (old(self)@.token(
                token_id@,
            ) matches Some(tok) && tok.owner_id != ctx.predecessor_id@),
            r == Err::<Option<Payment>, NftError>(NftError::DepositRequired) <==> (old(
                self,
            )@.token(token_id@) matches Some(tok) && tok.owner_id == ctx.predecessor_id@
                && ctx.attached_deposit != 1),
            r == Err::<Option<Payment>, NftError>(NftError::HostPaymentFailure) <==> (old(
                self,
            )@.token(token_id@) matches Some(tok) && tok.owner_id == ctx.predecessor_id@
                && ctx.attached_deposit == 1 && al_has(tok.approved_account_ids, account_id@)
                && entry_bytes(account_id@) * ctx.storage_byte_cost > u128::MAX),
            r is Ok <==> (old(self)@.token(token_id@) matches Some(tok) && tok.owner_id
                == ctx.predecessor_id@ && ctx.attached_deposit == 1 && (al_has(
                tok.approved_account_ids,
                account_id@,
            ) ==> entry_bytes(account_id@) * ctx.storage_byte_cost <= u128::MAX)),
            r matches Ok(o) ==> (old(self)@.token(token_id@) matches Some(tok) && {
                &&& tok.owner_id == ctx.predecessor_id@
                &&& ctx.attached_deposit == 1
                &&& (o is Some <==> al_has(tok.approved_account_ids, account_id@))
                &&& (o matches Some(p) ==> p.receiver_id@ == ctx.predecessor_id@ && p.amount
                    == entry_bytes(account_id@) * ctx.storage_byte_cost)
                &&& (final(self)@.token(token_id@) matches Some(tok2) && {
                    &&& al_get(tok2.approved_account_ids, account_id@) is None
                    &&& forall|k: Seq<u8>|
                        k != account_id@ ==> al_get(tok2.approved_account_ids, k) == al_get(
                            tok.approved_account_ids,
                            k,
                        )
                    &&& tok2.next_approval_id == tok.next_approval_id
                    &&& tok2.owner_id == tok.owner_id
                    &&& tok2.royalty == tok.royalty
                })
                &&& forall|t: Seq<u8>|
                    t != token_id@ ==> final(self)@.token(t) == old(self)@.token(t)
                &&& final(self)@.owner_index == old(self)@.owner_index
                &&& final(self)@.metadata_keys == old(self)@.metadata_keys
            }),
    {
        let idx = match self.find_token_index(token_id) {
            Some(i) => i,
            None => {
                return Err(NftError::TokenNotFound);
            },
        };
        let ghost pre = self@;
        let ghost prev_tv = pre.tokens[idx as int].1;
        proof {
            assert(pre.tokens[idx as int] == (self.tokens_by_id@[idx as int].0@,
            self.tokens_by_id@[idx as int].1@));
            lemma_al_get_unique(pre.tokens, token_id@, idx as int);
        }
        let owner_ok = {
            let tok = &self.tokens_by_id[idx].1;
            ctx.predecessor_id.eq_id(&tok.owner_id)
        };
        if !owner_ok {
            return Err(NftError::Unauthorized);
        }
        if ctx.attached_deposit != 1 {
            return Err(NftError::DepositRequired);
        }
        let existing = {
            let tok = &self.tokens_by_id[idx].1;
            approvals_lookup(&tok.approved_account_ids, account_id)
        };
        if existing.is_none() {
            return Ok(None);
        }
        proof {
            // The stored entry carries the grantee's bytes, so they are host-validated.
            let v = al_get(prev_tv.approved_account_ids, account_id@).unwrap();
            lemma_al_get_some_exists(prev_tv.approved_account_ids, account_id@, v);
        }
        let released = bytes_for_approved_account_id(account_id);
        let amount = match (released as u128).checked_mul(ctx.storage_byte_cost) {
            Some(a) => a,
            None => {
                return Err(NftError::HostPaymentFailure);
            },
        };
        let ghost pre_vec = self.tokens_by_id@;
        let (entry_id, mut token) = self.tokens_by_id.remove(idx);
        approvals_remove(&mut token.approved_account_ids, account_id);
        self.tokens_by_id.insert(idx, (entry_id, token));
        proof {
            vstd::seq_lib::lemma_update_is_remove_insert(pre_vec, idx as int, (entry_id, token));
            let new_tv = token@;
            assert(self@.tokens =~= pre.tokens.update(idx as int, (token_id@, new_tv)));
            let na = new_tv.approved_account_ids;
            let i = choose|i: int|
                0 <= i < prev_tv.approved_account_ids.len() && prev_tv.approved_account_ids[i] == (
                    account_id@,
                    al_get(prev_tv.approved_account_ids, account_id@).unwrap(),
                ) && na == prev_tv.approved_account_ids.remove(i);
            assert forall|w: int| 0 <= w < na.len() implies account_wf((#[trigger] na[w]).0)
                && na[w].1 < new_tv.next_approval_id by {
                if w < i {
                    assert(na[w] == prev_tv.approved_account_ids[w]);
                } else {
                    assert(na[w] == prev_tv.approved_account_ids[w + 1]);
                }
            }
            lemma_token_update_wf(pre, self@, idx as int, token_id@, new_tv);
        }
        Ok(Some(Payment { receiver_id: ctx.predecessor_id.duplicate(), amount }))
    }

    /// Revokes every approval of the token at once. Only the owner may call
    /// this, attaching exactly one smallest currency unit; the refund is the
    /// summed storage-byte cost of all removed entries. The approval-id
    /// counter is never reset, so revoked ids can never reappear.
    pub fn nft_remove_all(&mut self, ctx: &CallContext, token_id: &TokenId) -> (r: Result<
        Option<Payment>,
        NftError,
    >)
        requires
            old(self).wf(),
        ensures
            final(self).wf(),
            r is Err ==> *final(self) == *old(self),
            r == Err::<Option<Payment>, NftError>(NftError::TokenNotFound) <==> !old(
                self,
            )@.has_token(token_id@),
            r == Err::<Option<Payment>, NftError>(NftError::Unauthorized) <==> (old(self)@.token(
                token_id@,
            ) matches Some(tok) && tok.owner_id != ctx.predecessor_id@),
            r == Err::<Option<Payment>, NftError>(NftError::DepositRequired) <==> (old(
                self,
            )@.token(token_id@) matches Some(tok) && tok.owner_id == ctx.predecessor_id@
                && ctx.attached_deposit != 1),
            r == Err::<Option<Payment>, NftError>(NftError::HostPaymentFailure) <==> (old(
                self,
            )@.token(token_id@) matches Some(tok) && tok.owner_id == ctx.predecessor_id@
                && ctx.attached_deposit == 1 && approvals_bytes(tok.approved_account_ids)
                * ctx.storage_byte_cost > u128::MAX),
            r is Ok <==> (old(self)@.token(token_id@) matches Some(tok) && tok.owner_id
                == ctx.predecessor_id@ && ctx.attached_deposit == 1 && approvals_bytes(
                tok.approved_account_ids,
            ) * ctx.storage_byte_cost <= u128::MAX),
            r matches Ok(o) ==> (old(self)@.token(token_id@) matches Some(tok) && {
                &&& tok.owner_id == ctx.predecessor_id@
                &&& ctx.attached_deposit == 1
                &&& (o is Some <==> tok.approved_account_ids.len() > 0)
                &&& (o matches Some(p) ==> p.receiver_id@ == ctx.predecessor_id@ && p.amount
                    == approvals_bytes(tok.approved_account_ids) * ctx.storage_byte_cost)
                &&& (final(self)@.token(token_id@) matches Some(tok2) && {
                    &&& tok2.approved_account_ids == Seq::<(Seq<u8>, u64)>::empty()
                    &&& tok2.next_approval_id == tok.next_approval_id
                    &&& tok2.owner_id == tok.owner_id
                    &&& tok2.royalty == tok.royalty
                })
                &&& forall|a: Seq<u8>, id: Option<u64>|
                    !final(self)@.is_approved(token_id@, a, id)
                &&& forall|t: Seq<u8>|
                    t != token_id@ ==> final(self)@.token(t) == old(self)@.token(t)
                &&& final(self)@.owner_index == old(self)@.owner_index
                &&& final(self)@.metadata_keys == old(self)@.metadata_keys
            }),
    {
        let idx = match self.find_token_index(token_id) {
            Some(i) => i,
            None => {
                return Err(NftError::TokenNotFound);
            },
        };
        let ghost pre = self@;
        let ghost prev_tv = pre.tokens[idx as int].1;
        proof {
            assert(pre.tokens[idx as int] == (self.tokens_by_id@[idx as int].0@,
            self.tokens_by_id@[idx as int].1@));
            lemma_al_get_unique(pre.tokens, token_id@, idx as int);
        }
        let owner_ok = {
            let tok = &self.tokens_by_id[idx].1;
            ctx.predecessor_id.eq_id(&tok.owner_id)
        };
        if !owner_ok {
            return Err(NftError::Unauthorized);
        }
        if ctx.attached_deposit != 1 {
            return Err(NftError::DepositRequired);
        }
        let payment = {
            let tok = &self.tokens_by_id[idx].1;
            proof {
                assert forall|w: int| 0 <= w < tok.approved_account_ids@.len() implies account_wf(
                    (#[trigger] tok.approved_account_ids@[w]).0@,
                ) by {
                    assert(prev_tv.approved_account_ids[w] == (tok.approved_account_ids@[w].0@,
                    tok.approved_account_ids@[w].1));
                    assert(account_wf(prev_tv.approved_account_ids[w].0));
                }
            }
            match refund_approved_account_ids(
                ctx.predecessor_id.duplicate(),
                &tok.approved_account_ids,
                ctx.storage_byte_cost,
            ) {
                Ok(p) => p,
                Err(e) => {
                    return Err(e);
                },
            }
        };
        let empty = {
            let tok = &self.tokens_by_id[idx].1;
            tok.approved_account_ids.is_empty()
        };
        if empty {
            proof {
                assert(prev_tv.approved_account_ids =~= Seq::<(Seq<u8>, u64)>::empty());
            }
            return Ok(None);
        }
        let ghost pre_vec = self.tokens_by_id@;
        let (entry_id, mut token) = self.tokens_by_id.remove(idx);
        approvals_clear(&mut token.approved_account_ids);
        self.tokens_by_id.insert(idx, (entry_id, token));
        proof {
            vstd::seq_lib::lemma_update_is_remove_insert(pre_vec, idx as int, (entry_id, token));
            let new_tv = token@;
            assert(self@.tokens =~= pre.tokens.update(idx as int, (token_id@, new_tv)));
            lemma_token_update_wf(pre, self@, idx as int, token_id@, new_tv);
            assert forall|a: Seq<u8>, id: Option<u64>|
                !self@.is_approved(token_id@, a, id) by {
                assert(al_get(new_tv.approved_account_ids, a) is None);
            }
        }
        Ok(Some(payment))
    }

    /// The transfer engine: moves the token from `sender_id`'s authority to
    /// `receiver_id`, as one atomic state transition. The sender must own the
    /// token or hold an approval whose id matches the supplied one; on
    /// success every prior approval of the token is invalidated and the
    /// pre-transfer token is returned. On any failure nothing changes.
    pub fn internal_transfer(
        &mut self,
        sender_id: &AccountId,
        receiver_id: &AccountId,
        token_id: &TokenId,
        approval_id: Option<u64>,
        _memo: Option<String>,
    ) -> (r: Result<Token, NftError>)
        requires
            old(self).wf(),
            receiver_id.wf(),
        ensures
            final(self).wf(),
            r is Err ==> *final(self) == *old(self),
            r == Err::<Token, NftError>(NftError::TokenNotFound) <==> !old(self)@.has_token(
                token_id@,
            ),
            r == Err::<Token, NftError>(NftError::Unauthorized) <==> (old(self)@.token(
                token_id@,
            ) matches Some(tok) && !transfer_authorized(tok, sender_id@, approval_id)),
            r is Ok <==> (old(self)@.token(token_id@) matches Some(tok) && transfer_authorized(
                tok,
                sender_id@,
                approval_id,
            )),
            r matches Ok(prev) ==> Some(prev@) == old(self)@.token(token_id@),
            r matches Ok(prev) ==> final(self)@.token(token_id@) == Some(
                TokenV {
                    owner_id: receiver_id@,
                    approved_account_ids: Seq::<(Seq<u8>, u64)>::empty(),
                    next_approval_id: prev@.next_approval_id,
                    royalty: prev@.royalty,
                },
            ),
            r is Ok ==> forall|t: Seq<u8>|
                t != token_id@ ==> final(self)@.token(t) == old(self)@.token(t),
            r is Ok ==> forall|a: Seq<u8>, id: Option<u64>|
                !final(self)@.is_approved(token_id@, a, id),
            r is Ok ==> forall|a: Seq<u8>, t: Seq<u8>|
                final(self)@.indexed(a, t) <==> if t == token_id@ {
                    a == receiver_id@
                } else {
                    old(self)@.indexed(a, t)
                },
            final(self)@.metadata_keys == old(self)@.metadata_keys,
    {
        let idx = match self.find_token_index(token_id) {
            Some(i) => i,
            None => {
                return Err(NftError::TokenNotFound);
            },
        };
        let ghost pre = self@;
        let ghost prev_tv = pre.tokens[idx as int].1;
        proof {
            assert(pre.tokens[idx as int] == (self.tokens_by_id@[idx as int].0@,
            self.tokens_by_id@[idx as int].1@));
            lemma_al_get_unique(pre.tokens, token_id@, idx as int);
        }
        let authorized = {
            let tok = &self.tokens_by_id[idx].1;
            if sender_id.eq_id(&tok.owner_id) {
                true
            } else {
                match approvals_lookup(&tok.approved_account_ids, sender_id) {
                    Some(stored) => match approval_id {
                        Some(id) => stored == id,
                        None => true,
                    },
                    None => false,
                }
            }
        };
        proof {
            assert(authorized == transfer_authorized(prev_tv, sender_id@, approval_id));
        }
        if !authorized {
            return Err(NftError::Unauthorized);
        }
        let ghost pre_vec = self.tokens_by_id@;
        let (entry_id, mut token) = self.tokens_by_id.remove(idx);
        proof {
            assert(self@.tokens =~= pre.tokens.remove(idx as int));
            assert(self@.owner_index =~= pre.owner_index);
            assert(self@.metadata_keys =~= pre.metadata_keys);
            assert(token@ == prev_tv);
            // The token is indexed under its owner.
            assert(pre.indexed(prev_tv.owner_id, token_id@));
        }
        let removed = self.internal_remove_token_from_owner(&token.owner_id, token_id);
        let ghost j = choose|j: int|
            0 <= j < pre.owner_index.len() && pre.owner_index[j] == (prev_tv.owner_id, token_id@)
                && self@.owner_index == pre.owner_index.remove(j);
        proof {
            assert(removed);
            assert(self@.owner_index == pre.owner_index.remove(j));
            assert(self@.metadata_keys =~= pre.metadata_keys);
        }
        let prev = token.duplicate();
        token.owner_id = receiver_id.duplicate();
        approvals_clear(&mut token.approved_account_ids);
        let ghost new_tv = TokenV {
            owner_id: receiver_id@,
            approved_account_ids: Seq::<(Seq<u8>, u64)>::empty(),
            next_approval_id: prev_tv.next_approval_id,
            royalty: prev_tv.royalty,
        };
        proof {
            assert(token@ =~= new_tv);
            assert(self.tokens_by_id@ == pre_vec.remove(idx as int));
            assert(self.tokens_by_id@.len() == pre_vec.len() - 1);
        }
        self.tokens_by_id.insert(idx, (entry_id, token));
        self.internal_add_token_to_owner(receiver_id, token_id);
        proof {
            let post = self@;
            vstd::seq_lib::lemma_update_is_remove_insert(pre_vec, idx as int, (entry_id, token));
            assert(self.tokens_by_id@ == pre_vec.update(idx as int, (entry_id, token)));
            assert(post.tokens =~= pre.tokens.update(idx as int, (token_id@, new_tv)));
            assert(post.owner_index =~= pre.owner_index.remove(j).push((receiver_id@, token_id@)));
            assert(post.metadata_keys =~= pre.metadata_keys);
            lemma_al_update(pre.tokens, idx as int, new_tv);
            lemma_transfer_restores_wf(
                pre,
                post,
                idx as int,
                j,
                token_id@,
                receiver_id@,
                prev_tv,
                new_tv,
            );
        }
        Ok(prev)
    }

    /// Records the token under the account in the ownership index.
    pub fn internal_add_token_to_owner(&mut self, account_id: &AccountId, token_id: &TokenId)
        ensures
            final(self).tokens_by_id == old(self).tokens_by_id,
            final(self).token_metadata_by_id == old(self).token_metadata_by_id,
            final(self)@.tokens == old(self)@.tokens,
            final(self)@.metadata_keys == old(self)@.metadata_keys,
            final(self)@.owner_index == old(self)@.owner_index.push((account_id@, token_id@)),
    {
        self.tokens_per_owner.push((account_id.duplicate(), token_id.duplicate()));
        proof {
            assert(self@.owner_index =~= old(self)@.owner_index.push((account_id@, token_id@)));
            assert(self@.tokens =~= old(self)@.tokens);
            assert(self@.metadata_keys =~= old(self)@.metadata_keys);
        }
    }

    /// Drops the token from the account's entries in the ownership index.
    pub fn internal_remove_token_from_owner(&mut self, account_id: &AccountId, token_id: &TokenId) -> (removed: bool)
        ensures
            final(self).tokens_by_id == old(self).tokens_by_id,
            final(self).token_metadata_by_id == old(self).token_metadata_by_id,
            final(self)@.tokens == old(self)@.tokens,
            final(self)@.metadata_keys == old(self)@.metadata_keys,
            removed == old(self)@.indexed(account_id@, token_id@),
            removed ==> exists|i: int|
                0 <= i < old(self)@.owner_index.len() && old(self)@.owner_index[i] == (
                    account_id@,
                    token_id@,
                ) && final(self)@.owner_index == old(self)@.owner_index.remove(i),
            !removed ==> *final(self) == *old(self),
    {
        match self.find_owner_pair(account_id, token_id) {
            Some(i) => {
                self.tokens_per_owner.remove(i);
                proof {
                    assert(self@.owner_index =~= old(self)@.owner_index.remove(i as int));
                    assert(self@.tokens =~= old(self)@.tokens);
                    assert(self@.metadata_keys =~= old(self)@.metadata_keys);
                    assert(old(self)@.owner_index[i as int] == (account_id@, token_id@));
                }
                true
            },
            None => false,
        }
    }
}

} // verus!
