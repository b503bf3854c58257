//! First-match lookup in a sequence of keys, as a map keeps one entry per
//! key.

use vstd::prelude::*;

verus! {

/// Index of the first `key` in `keys`, or the length of `keys` when it is
/// absent.
pub open spec fn first_index<K>(keys: Seq<K>, key: K) -> int
    decreases keys.len(),
{
    if keys.len() == 0 {
        0
    } else if keys[0] == key {
        0
    } else {
        1 + first_index(keys.drop_first(), key)
    }
}

/// `first_index` is the first position holding `key`.
pub proof fn lemma_first_index<K>(keys: Seq<K>, key: K, i: int)
    requires
        0 <= i <= keys.len(),
        forall|k: int| 0 <= k < i ==> keys[k] != key,
        i < keys.len() ==> keys[i] == key,
    ensures
        first_index(keys, key) == i,
    decreases i,
{
    if i > 0 {
        assert(keys[0] != key);
        let rest = keys.drop_first();
        assert forall|k: int| 0 <= k < i - 1 implies rest[k] != key by {
            assert(rest[k] == keys[k + 1]);
        }
        if i < keys.len() {
            assert(rest[i - 1] == keys[i]);
        }
        lemma_first_index(rest, key, i - 1);
    }
}

/// `first_index` lies within `0..=len`, and before it no key matches.
pub proof fn lemma_first_index_bounds<K>(keys: Seq<K>, key: K)
    ensures
        0 <= first_index(keys, key) <= keys.len(),
        forall|k: int| 0 <= k < first_index(keys, key) ==> keys[k] != key,
        first_index(keys, key) < keys.len() ==> keys[first_index(keys, key)] == key,
    decreases keys.len(),
{
    if keys.len() > 0 && keys[0] != key {
        let rest = keys.drop_first();
        lemma_first_index_bounds(rest, key);
        assert forall|k: int| 0 <= k < first_index(keys, key) implies keys[k] != key by {
            if k > 0 {
                assert(keys[k] == rest[k - 1]);
            }
        }
        if first_index(keys, key) < keys.len() {
            assert(keys[first_index(keys, key)] == rest[first_index(rest, key)]);
        }
    }
}

/// Pushing a key changes the first index of no key already present, and
/// makes an absent pushed key found at the end.
pub proof fn lemma_first_index_push<K>(keys: Seq<K>, key: K, pushed: K)
    ensures
        first_index(keys.push(pushed), key) == if first_index(keys, key) < keys.len() {
            first_index(keys, key)
        } else if pushed == key {
            keys.len() as int
        } else {
            keys.len() + 1int
        },
{
    lemma_first_index_bounds(keys, key);
    let f = first_index(keys, key);
    let n = keys.push(pushed);
    if f < keys.len() {
        lemma_first_index(n, key, f);
    } else if pushed == key {
        lemma_first_index(n, key, keys.len() as int);
    } else {
        lemma_first_index(n, key, keys.len() + 1int);
    }
}

} // verus!
