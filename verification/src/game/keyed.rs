use vstd::prelude::*;

verus! {

/// Where `k` stands in `keys`, or -1 when it is not there.
pub open spec fn position_of<K>(keys: Seq<K>, k: K) -> int {
    if keys.contains(k) {
        keys.index_of(k)
    } else {
        -1
    }
}

pub proof fn lemma_position_of<K>(keys: Seq<K>, k: K)
    ensures
        position_of(keys, k) == -1 <==> !keys.contains(k),
        position_of(keys, k) != -1 ==> 0 <= position_of(keys, k) < keys.len() && keys[position_of(keys, k)] == k,
{
}

/// In a sequence without repeats, a key is found where it stands.
pub proof fn lemma_position_unique<K>(keys: Seq<K>, i: int)
    requires
        keys.no_duplicates(),
        0 <= i < keys.len(),
    ensures
        position_of(keys, keys[i]) == i,
{
    assert(keys.contains(keys[i]));
    let p = keys.index_of(keys[i]);
    assert(keys[p] == keys[i]);
}

/// A key that no element carries is not found.
pub proof fn lemma_position_absent<K>(keys: Seq<K>, k: K)
    requires
        forall|j: int| 0 <= j < keys.len() ==> keys[j] != k,
    ensures
        position_of(keys, k) == -1,
{
}

/// Adding a key that is not there keeps a sequence free of repeats.
pub proof fn lemma_push_fresh<K>(keys: Seq<K>, k: K)
    requires
        keys.no_duplicates(),
        !keys.contains(k),
    ensures
        keys.push(k).no_duplicates(),
{
    let s = keys.push(k);
    assert forall|i: int, j: int| 0 <= i < s.len() && 0 <= j < s.len() && i != j implies s[i] != s[j] by {
        if i < keys.len() && j < keys.len() {
        } else if i == keys.len() {
            assert(s[j] == keys[j]);
        } else {
            assert(s[i] == keys[i]);
        }
    }
}

} // verus!
