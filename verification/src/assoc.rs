//! Association lists keyed by byte strings: the mathematical model behind the
//! ledger's maps. A map is a sequence of key/value pairs; `al_get` is
//! first-match lookup, and `keys_unique` is the well-formedness condition the
//! ledger maintains on every stored list.

use vstd::prelude::*;

verus! {

/// First-match lookup in an association list.
pub open spec fn al_get<V>(s: Seq<(Seq<u8>, V)>, k: Seq<u8>) -> Option<V>
    decreases s.len(),
{
    if s.len() <= 0 {
        None
    } else if s[0].0 == k {
        Some(s[0].1)
    } else {
        al_get(s.drop_first(), k)
    }
}

/// Whether the key is present.
pub open spec fn al_has<V>(s: Seq<(Seq<u8>, V)>, k: Seq<u8>) -> bool {
    al_get(s, k) is Some
}

/// No key occurs twice.
pub open spec fn keys_unique<V>(s: Seq<(Seq<u8>, V)>) -> bool {
    forall|i: int, j: int| 0 <= i < j < s.len() ==> s[i].0 != s[j].0
}

/// A key is present exactly when some pair carries it.
pub proof fn lemma_al_get_exists<V>(s: Seq<(Seq<u8>, V)>, k: Seq<u8>)
    ensures
        al_has(s, k) <==> exists|i: int| 0 <= i < s.len() && s[i].0 == k,
    decreases s.len(),
{
    if s.len() > 0 {
        lemma_al_get_exists(s.drop_first(), k);
        if s[0].0 != k && al_has(s, k) {
            let i = choose|i: int| 0 <= i < s.drop_first().len() && s.drop_first()[i].0 == k;
            assert(s[i + 1].0 == k);
        }
        if exists|i: int| 0 <= i < s.len() && s[i].0 == k {
            let i = choose|i: int| 0 <= i < s.len() && s[i].0 == k;
            if s[0].0 != k {
                assert(s.drop_first()[i - 1].0 == k);
            }
        }
    }
}

/// A successful lookup returns the value of some pair carrying the key.
pub proof fn lemma_al_get_some_exists<V>(s: Seq<(Seq<u8>, V)>, k: Seq<u8>, v: V)
    requires
        al_get(s, k) == Some(v),
    ensures
        exists|i: int| 0 <= i < s.len() && s[i] == (k, v),
    decreases s.len(),
{
    if s.len() > 0 {
        if s[0].0 == k {
            assert(s[0] == (k, v));
        } else {
            lemma_al_get_some_exists(s.drop_first(), k, v);
            let i = choose|i: int| 0 <= i < s.drop_first().len() && s.drop_first()[i] == (k, v);
            assert(s[i + 1] == (k, v));
        }
    }
}

/// Lookup finds the pair at `i` when no earlier pair carries the key.
pub proof fn lemma_al_get_at<V>(s: Seq<(Seq<u8>, V)>, k: Seq<u8>, i: int)
    requires
        0 <= i < s.len(),
        s[i].0 == k,
        forall|j: int| 0 <= j < i ==> s[j].0 != k,
    ensures
        al_get(s, k) == Some(s[i].1),
    decreases s.len(),
{
    if i > 0 {
        lemma_al_get_at(s.drop_first(), k, i - 1);
    }
}

/// Lookup fails when no pair carries the key.
pub proof fn lemma_al_get_none<V>(s: Seq<(Seq<u8>, V)>, k: Seq<u8>)
    requires
        forall|j: int| 0 <= j < s.len() ==> s[j].0 != k,
    ensures
        al_get(s, k) is None,
    decreases s.len(),
{
    if s.len() > 0 {
        lemma_al_get_none(s.drop_first(), k);
    }
}

/// With unique keys, lookup returns the value stored beside any matching key.
pub proof fn lemma_al_get_unique<V>(s: Seq<(Seq<u8>, V)>, k: Seq<u8>, i: int)
    requires
        keys_unique(s),
        0 <= i < s.len(),
        s[i].0 == k,
    ensures
        al_get(s, k) == Some(s[i].1),
{
    lemma_al_get_at(s, k, i);
}

/// Appending a pair with a fresh key adds exactly that binding.
pub proof fn lemma_al_push<V>(s: Seq<(Seq<u8>, V)>, k0: Seq<u8>, v0: V)
    requires
        !al_has(s, k0),
    ensures
        al_get(s.push((k0, v0)), k0) == Some(v0),
        forall|k: Seq<u8>| k != k0 ==> al_get(s.push((k0, v0)), k) == al_get(s, k),
        keys_unique(s) ==> keys_unique(s.push((k0, v0))),
    decreases s.len(),
{
    lemma_al_get_exists(s, k0);
    let t = s.push((k0, v0));
    if s.len() == 0 {
        assert(t[0] == (k0, v0));
        assert forall|k: Seq<u8>| k != k0 implies al_get(t, k) == al_get(s, k) by {
            assert(t.drop_first() =~= s);
        }
    } else {
        assert(!al_has(s.drop_first(), k0)) by {
            lemma_al_get_exists(s.drop_first(), k0);
        }
        lemma_al_push(s.drop_first(), k0, v0);
        assert(t.drop_first() =~= s.drop_first().push((k0, v0)));
        assert(t[0] == s[0]);
        assert(al_get(t, k0) == Some(v0));
        assert forall|k: Seq<u8>| k != k0 implies al_get(t, k) == al_get(s, k) by {
            if s[0].0 == k {
                assert(al_get(t, k) == Some(t[0].1));
                assert(al_get(s, k) == Some(s[0].1));
            } else {
                assert(al_get(t, k) == al_get(t.drop_first(), k));
                assert(al_get(t.drop_first(), k) == al_get(s.drop_first().push((k0, v0)), k));
                assert(al_get(s.drop_first().push((k0, v0)), k) == al_get(s.drop_first(), k));
                assert(al_get(s, k) == al_get(s.drop_first(), k));
            }
        }
    }
    if keys_unique(s) {
        assert forall|i: int, j: int| 0 <= i < j < t.len() implies t[i].0 != t[j].0 by {
            if j < s.len() {
                assert(t[i] == s[i] && t[j] == s[j]);
            } else {
                assert(t[i] == s[i] && t[j] == (k0, v0));
            }
        }
    }
}

/// Replacing the value at a matching index rebinds exactly that key.
pub proof fn lemma_al_update<V>(s: Seq<(Seq<u8>, V)>, i: int, v0: V)
    requires
        keys_unique(s),
        0 <= i < s.len(),
    ensures
        al_get(s.update(i, (s[i].0, v0)), s[i].0) == Some(v0),
        forall|k: Seq<u8>| k != s[i].0 ==> al_get(s.update(i, (s[i].0, v0)), k) == al_get(s, k),
        keys_unique(s.update(i, (s[i].0, v0))),
    decreases s.len(),
{
    let t = s.update(i, (s[i].0, v0));
    assert(forall|j: int| 0 <= j < s.len() && j != i ==> t[j] == s[j]);
    if i == 0 {
        assert(t[0] == (s[0].0, v0));
        assert forall|k: Seq<u8>| k != s[0].0 implies al_get(t, k) == al_get(s, k) by {
            assert(t.drop_first() =~= s.drop_first());
        }
    } else {
        assert(keys_unique(s.drop_first()));
        lemma_al_update(s.drop_first(), i - 1, v0);
        assert(t.drop_first() =~= s.drop_first().update(i - 1, (s[i].0, v0)));
        assert(t[0] == s[0]);
        assert(s.drop_first()[i - 1] == s[i]);
        assert(al_get(t, s[i].0) == Some(v0)) by {
            assert(al_get(t.drop_first(), s[i].0)
                == al_get(s.drop_first().update(i - 1, (s[i].0, v0)), s[i].0));
        }
        assert forall|k: Seq<u8>| k != s[i].0 implies al_get(t, k) == al_get(s, k) by {
            if s[0].0 == k {
                assert(al_get(t, k) == Some(t[0].1));
                assert(al_get(s, k) == Some(s[0].1));
            } else {
                assert(al_get(t, k) == al_get(t.drop_first(), k));
                assert(al_get(t.drop_first(), k)
                    == al_get(s.drop_first().update(i - 1, (s[i].0, v0)), k));
                assert(al_get(s.drop_first().update(i - 1, (s[i].0, v0)), k)
                    == al_get(s.drop_first(), k));
                assert(al_get(s, k) == al_get(s.drop_first(), k));
            }
        }
    }
}

/// Removing the pair at a matching index unbinds exactly that key.
pub proof fn lemma_al_remove<V>(s: Seq<(Seq<u8>, V)>, i: int)
    requires
        keys_unique(s),
        0 <= i < s.len(),
    ensures
        al_get(s.remove(i), s[i].0) is None,
        forall|k: Seq<u8>| k != s[i].0 ==> al_get(s.remove(i), k) == al_get(s, k),
        keys_unique(s.remove(i)),
    decreases s.len(),
{
    let t = s.remove(i);
    assert(forall|j: int| 0 <= j < i ==> t[j] == s[j]);
    assert(forall|j: int| i <= j < t.len() ==> t[j] == s[j + 1]);
    assert(forall|j: int| 0 <= j < t.len() ==> t[j].0 != s[i].0);
    lemma_al_get_none(t, s[i].0);
    if i == 0 {
        assert forall|k: Seq<u8>| k != s[0].0 implies al_get(t, k) == al_get(s, k) by {
            assert(t =~= s.drop_first());
        }
    } else {
        assert(keys_unique(s.drop_first()));
        lemma_al_remove(s.drop_first(), i - 1);
        assert(t.drop_first() =~= s.drop_first().remove(i - 1));
        assert(t[0] == s[0]);
        assert(s.drop_first()[i - 1] == s[i]);
        assert forall|k: Seq<u8>| k != s[i].0 implies al_get(t, k) == al_get(s, k) by {
            if s[0].0 == k {
                assert(al_get(t, k) == Some(t[0].1));
                assert(al_get(s, k) == Some(s[0].1));
            } else {
                assert(al_get(t, k) == al_get(t.drop_first(), k));
                assert(al_get(t.drop_first(), k) == al_get(s.drop_first().remove(i - 1), k));
                assert(al_get(s.drop_first().remove(i - 1), k) == al_get(s.drop_first(), k));
                assert(al_get(s, k) == al_get(s.drop_first(), k));
            }
        }
    }
}

} // verus!
