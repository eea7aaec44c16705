//! Account and token identifiers. The host validates account identifiers to a
//! bounded byte length before a call ever reaches the ledger; the ledger only
//! reads the identifier's bytes, so it models an identifier as those bytes
//! together with that length bound.

use vstd::prelude::*;

verus! {

/// Shortest account identifier the host accepts, in bytes.
pub const MIN_ACCOUNT_ID_LEN: usize = 2;

/// Longest account identifier the host accepts, in bytes.
pub const MAX_ACCOUNT_ID_LEN: usize = 64;

/// An account identifier: the UTF-8 bytes of the account's name.
#[derive(Debug)]
pub struct AccountId {
    pub bytes: Vec<u8>,
}

impl View for AccountId {
    type V = Seq<u8>;

    open spec fn view(&self) -> Seq<u8> {
        self.bytes@
    }
}

/// The length bounds the host guarantees of every account identifier.
pub open spec fn account_wf(a: Seq<u8>) -> bool {
    MIN_ACCOUNT_ID_LEN <= a.len() <= MAX_ACCOUNT_ID_LEN
}

impl AccountId {
    pub open spec fn wf(self) -> bool {
        account_wf(self@)
    }

    /// Accepts exactly the identifiers whose length the host would accept.
    pub fn new(bytes: Vec<u8>) -> (r: Option<AccountId>)
        ensures
            match r {
                Some(a) => a@ == bytes@ && a.wf(),
                None => !account_wf(bytes@),
            },
    {
        if MIN_ACCOUNT_ID_LEN <= bytes.len() && bytes.len() <= MAX_ACCOUNT_ID_LEN {
            Some(AccountId { bytes })
        } else {
            None
        }
    }

    pub fn eq_id(&self, other: &AccountId) -> (r: bool)
        ensures
            r == (self@ == other@),
    {
        bytes_eq(&self.bytes, &other.bytes)
    }

    pub fn duplicate(&self) -> (r: AccountId)
        ensures
            r@ == self@,
    {
        AccountId { bytes: clone_bytes(&self.bytes) }
    }
}

/// A token identifier: an opaque byte string.
#[derive(Debug)]
pub struct TokenId {
    pub bytes: Vec<u8>,
}

impl View for TokenId {
    type V = Seq<u8>;

    open spec fn view(&self) -> Seq<u8> {
        self.bytes@
    }
}

impl TokenId {
    pub fn new(bytes: Vec<u8>) -> (r: TokenId)
        ensures
            r@ == bytes@,
    {
        TokenId { bytes }
    }

    pub fn eq_id(&self, other: &TokenId) -> (r: bool)
        ensures
            r == (self@ == other@),
    {
        bytes_eq(&self.bytes, &other.bytes)
    }

    pub fn duplicate(&self) -> (r: TokenId)
        ensures
            r@ == self@,
    {
        TokenId { bytes: clone_bytes(&self.bytes) }
    }
}

/// Byte-for-byte equality of two byte strings.
pub fn bytes_eq(a: &Vec<u8>, b: &Vec<u8>) -> (r: bool)
    ensures
        r == (a@ == b@),
{
    if a.len() != b.len() {
        return false;
    }
    let mut i: usize = 0;
    while i < a.len()
        invariant
            0 <= i <= a@.len(),
            a@.len() == b@.len(),
            forall|j: int| 0 <= j < i ==> a@[j] == b@[j],
        decreases a@.len() - i,
    {
        if a[i] != b[i] {
            return false;
        }
        i += 1;
    }
    proof {
        assert(a@ =~= b@);
    }
    true
}

/// An exact copy of a byte string.
pub fn clone_bytes(v: &Vec<u8>) -> (r: Vec<u8>)
    ensures
        r@ == v@,
{
    let mut out: Vec<u8> = Vec::new();
    let mut i: usize = 0;
    while i < v.len()
        invariant
            0 <= i <= v@.len(),
            out@ =~= v@.subrange(0, i as int),
        decreases v@.len() - i,
    {
        out.push(v[i]);
        proof {
            assert(out@ =~= v@.subrange(0, i as int + 1));
        }
        i += 1;
    }
    proof {
        assert(v@.subrange(0, v@.len() as int) =~= v@);
    }
    out
}

} // verus!
