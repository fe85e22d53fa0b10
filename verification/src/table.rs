//! A keyed table modelled over a sequence of key-value pairs.
//!
//! Every collection of the engine is a vector of pairs with pairwise
//! distinct keys; [`table_get`] is its mathematical reading.  Updates are
//! performed by removing the old pair and pushing the new one, so the
//! lemmas here cover exactly `push` and `remove`.

use vstd::prelude::*;

verus! {

/// All keys of `s` are pairwise distinct.
pub open spec fn keys_unique<K, V>(s: Seq<(K, V)>) -> bool {
    forall|i: int, j: int|
        0 <= i < s.len() && 0 <= j < s.len() && i != j ==> (#[trigger] s[i]).0 != (
        #[trigger] s[j]).0
}

/// The value stored under `key`, reading from the most recent pair.
pub open spec fn table_get<K, V>(s: Seq<(K, V)>, key: K) -> Option<V>
    decreases s.len(),
{
    if s.len() == 0 {
        None
    } else if s.last().0 == key {
        Some(s.last().1)
    } else {
        table_get(s.drop_last(), key)
    }
}

/// Whether `s` stores a value under `key`.
pub open spec fn table_has<K, V>(s: Seq<(K, V)>, key: K) -> bool {
    table_get(s, key) is Some
}

/// Appending a pair makes its key present and leaves every other key as it
/// was.
pub proof fn lemma_get_push<K, V>(s: Seq<(K, V)>, key: K, value: V, probe: K)
    ensures
        table_get(s.push((key, value)), probe) == if probe == key {
            Some(value)
        } else {
            table_get(s, probe)
        },
{
    let t = s.push((key, value));
    assert(t.last() == (key, value));
    assert(t.drop_last() =~= s);
}

/// A key that no pair carries is absent.
pub proof fn lemma_get_absent<K, V>(s: Seq<(K, V)>, key: K)
    requires
        forall|i: int| 0 <= i < s.len() ==> (#[trigger] s[i]).0 != key,
    ensures
        table_get(s, key) is None,
    decreases s.len(),
{
    if s.len() > 0 {
        lemma_get_absent(s.drop_last(), key);
    }
}

/// A stored key is carried by some pair.
pub proof fn lemma_get_some_index<K, V>(s: Seq<(K, V)>, key: K)
    requires
        table_get(s, key) is Some,
    ensures
        exists|i: int| 0 <= i < s.len() && (#[trigger] s[i]).0 == key,
    decreases s.len(),
{
    if s.len() > 0 {
        if s.last().0 == key {
            assert(s[s.len() - 1].0 == key);
        } else {
            lemma_get_some_index(s.drop_last(), key);
            let i = choose|i: int|
                0 <= i < s.drop_last().len() && (#[trigger] s.drop_last()[i]).0 == key;
            assert(s[i].0 == key);
        }
    }
}

/// With distinct keys, the table reads back the pair stored at any index.
pub proof fn lemma_get_at_index<K, V>(s: Seq<(K, V)>, i: int)
    requires
        keys_unique(s),
        0 <= i < s.len(),
    ensures
        table_get(s, s[i].0) == Some(s[i].1),
    decreases s.len(),
{
    if i == s.len() - 1 {
    } else {
        assert(keys_unique(s.drop_last()));
        lemma_get_at_index(s.drop_last(), i);
    }
}

/// Appending a fresh key keeps the keys distinct.
pub proof fn lemma_unique_push<K, V>(s: Seq<(K, V)>, key: K, value: V)
    requires
        keys_unique(s),
        forall|i: int| 0 <= i < s.len() ==> (#[trigger] s[i]).0 != key,
    ensures
        keys_unique(s.push((key, value))),
{
}

/// Removing the pair at `i` erases exactly its key and keeps the keys
/// distinct.
pub proof fn lemma_get_remove<K, V>(s: Seq<(K, V)>, i: int, probe: K)
    requires
        keys_unique(s),
        0 <= i < s.len(),
    ensures
        table_get(s.remove(i), probe) == if s[i].0 == probe {
            None::<V>
        } else {
            table_get(s, probe)
        },
        keys_unique(s.remove(i)),
    decreases s.len(),
{
    let t = s.remove(i);
    assert forall|a: int, b: int|
        0 <= a < t.len() && 0 <= b < t.len() && a != b implies (#[trigger] t[a]).0 != (
    #[trigger] t[b]).0 by {
        let a0 = if a < i {
            a
        } else {
            a + 1
        };
        let b0 = if b < i {
            b
        } else {
            b + 1
        };
        assert(t[a] == s[a0]);
        assert(t[b] == s[b0]);
    }
    if i == s.len() - 1 {
        assert(t =~= s.drop_last());
        if s[i].0 == probe {
            assert forall|j: int| 0 <= j < t.len() implies (#[trigger] t[j]).0 != probe by {
                assert(t[j] == s[j]);
            }
            lemma_get_absent(t, probe);
        }
    } else {
        assert(t.last() == s.last());
        assert(t.drop_last() =~= s.drop_last().remove(i));
        assert(keys_unique(s.drop_last()));
        if s.last().0 == probe {
        } else {
            lemma_get_remove(s.drop_last(), i, probe);
        }
    }
}

} // verus!
