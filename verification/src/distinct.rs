//! Order-preserving removal of repeated keys from a sequence.

use vstd::prelude::*;

verus! {

/// The keys of `keys` with every repetition removed: each distinct key
/// once, in the order in which the keys first occur.
pub open spec fn first_seen<K>(keys: Seq<K>) -> Seq<K>
    decreases keys.len(),
{
    if keys.len() == 0 {
        Seq::empty()
    } else {
        let before = first_seen(keys.drop_last());
        if before.contains(keys.last()) {
            before
        } else {
            before.push(keys.last())
        }
    }
}

/// The greatest index at which `k` occurs in `keys`, or -1 if it does not
/// occur.
pub open spec fn last_position<K>(keys: Seq<K>, k: K) -> int
    decreases keys.len(),
{
    if keys.len() == 0 {
        -1
    } else if keys.last() == k {
        keys.len() - 1
    } else {
        last_position(keys.drop_last(), k)
    }
}

/// `first_seen` holds no key twice, holds exactly the keys of its argument,
/// and is no longer than its argument.
pub proof fn lemma_first_seen<K>(keys: Seq<K>)
    ensures
        first_seen(keys).no_duplicates(),
        forall|k: K|
            #![trigger first_seen(keys).contains(k)]
            #![trigger keys.contains(k)]
            first_seen(keys).contains(k) <==> keys.contains(k),
        first_seen(keys).len() <= keys.len(),
    decreases keys.len(),
{
    if keys.len() > 0 {
        let shorter = keys.drop_last();
        lemma_first_seen(shorter);
        let before = first_seen(shorter);
        let out = first_seen(keys);
        assert forall|k: K| out.contains(k) <==> keys.contains(k) by {
            if out.contains(k) {
                let i = choose|i: int| 0 <= i < out.len() && out[i] == k;
                if i < before.len() {
                    assert(before[i] == k);
                    assert(shorter.contains(k));
                    let j = choose|j: int| 0 <= j < shorter.len() && shorter[j] == k;
                    assert(keys[j] == k);
                } else {
                    assert(keys[keys.len() - 1] == k);
                }
            }
            if keys.contains(k) {
                let j = choose|j: int| 0 <= j < keys.len() && keys[j] == k;
                if j < shorter.len() {
                    assert(shorter[j] == k);
                    assert(before.contains(k));
                    let i = choose|i: int| 0 <= i < before.len() && before[i] == k;
                    assert(out[i] == k);
                } else if !before.contains(k) {
                    assert(out[before.len() as int] == k);
                }
            }
        }
    }
}

/// The length of `first_seen(keys)` is the number of distinct keys.
pub proof fn lemma_first_seen_counts_distinct<K>(keys: Seq<K>)
    ensures
        first_seen(keys).len() == keys.to_set().len(),
{
    lemma_first_seen(keys);
    first_seen(keys).unique_seq_to_set();
    assert(first_seen(keys).to_set() =~= keys.to_set());
}

/// A key that occurs in `keys` occurs at its last position, and nowhere
/// after it; a key that does not occur has last position -1.
pub proof fn lemma_last_position<K>(keys: Seq<K>, k: K)
    ensures
        -1 <= last_position(keys, k) < keys.len(),
        keys.contains(k) <==> last_position(keys, k) >= 0,
        last_position(keys, k) >= 0 ==> keys[last_position(keys, k)] == k,
        forall|j: int| last_position(keys, k) < j < keys.len() ==> keys[j] != k,
    decreases keys.len(),
{
    if keys.len() > 0 {
        let shorter = keys.drop_last();
        lemma_last_position(shorter, k);
        if keys.last() == k {
            assert(keys[keys.len() - 1] == k);
        } else {
            if keys.contains(k) {
                let j = choose|j: int| 0 <= j < keys.len() && keys[j] == k;
                assert(shorter[j] == k);
            }
            if shorter.contains(k) {
                let j = choose|j: int| 0 <= j < shorter.len() && shorter[j] == k;
                assert(keys[j] == k);
            }
            assert forall|j: int| last_position(keys, k) < j < keys.len() implies keys[j] != k by {
                if j < shorter.len() {
                    assert(shorter[j] == keys[j]);
                }
            }
        }
    }
}

/// In a sequence without repetition, a key is found at the one index that
/// holds it.
pub proof fn lemma_index_of_unique<K>(s: Seq<K>, i: int)
    requires
        s.no_duplicates(),
        0 <= i < s.len(),
    ensures
        s.index_of(s[i]) == i,
{
    let j = s.index_of(s[i]);
    assert(0 <= j < s.len() && s[j] == s[i]);
}

} // verus!
