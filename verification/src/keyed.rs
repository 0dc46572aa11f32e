//! Lists of keyed entries, looked up by key: either the first entry of a
//! key wins (a map that keeps the entry it met first) or the last one does
//! (a map where a later entry replaces an earlier one).
use vstd::prelude::*;
use crate::text;

verus! {

/// The keys of a keyed list.
pub open spec fn keys_of<V>(v: Seq<(String, V)>) -> Seq<Seq<char>> {
    v.map_values(|p: (String, V)| p.0@)
}

/// The position of the first `k` in `keys`.
pub open spec fn first_index(keys: Seq<Seq<char>>, k: Seq<char>) -> Option<int>
    decreases keys.len(),
{
    if keys.len() == 0 {
        None
    } else if keys[0] == k {
        Some(0)
    } else {
        match first_index(keys.drop_first(), k) {
            Some(i) => Some(i + 1),
            None => None,
        }
    }
}

/// The position of the last `k` in `keys`.
pub open spec fn last_index(keys: Seq<Seq<char>>, k: Seq<char>) -> Option<int>
    decreases keys.len(),
{
    if keys.len() == 0 {
        None
    } else if keys.last() == k {
        Some(keys.len() - 1)
    } else {
        last_index(keys.drop_last(), k)
    }
}

/// `first_index` is the least position holding the key.
pub proof fn lemma_first_index(keys: Seq<Seq<char>>, k: Seq<char>)
    ensures
        match first_index(keys, k) {
            Some(i) => 0 <= i < keys.len() && keys[i] == k && forall|j: int| 0 <= j < i ==> keys[j] != k,
            None => forall|j: int| 0 <= j < keys.len() ==> keys[j] != k,
        },
    decreases keys.len(),
{
    if keys.len() > 0 && keys[0] != k {
        lemma_first_index(keys.drop_first(), k);
        assert forall|j: int| 1 <= j < keys.len() implies keys[j] == keys.drop_first()[j - 1] by {}
    }
}

/// `last_index` is the greatest position holding the key.
pub proof fn lemma_last_index(keys: Seq<Seq<char>>, k: Seq<char>)
    ensures
        match last_index(keys, k) {
            Some(i) => 0 <= i < keys.len() && keys[i] == k && forall|j: int| i < j < keys.len() ==> keys[j] != k,
            None => forall|j: int| 0 <= j < keys.len() ==> keys[j] != k,
        },
    decreases keys.len(),
{
    if keys.len() > 0 && keys.last() != k {
        lemma_last_index(keys.drop_last(), k);
        assert forall|j: int| 0 <= j < keys.len() - 1 implies keys[j] == keys.drop_last()[j] by {}
        assert(keys[keys.len() - 1] == keys.last());
    }
}

/// A position characterised as the least one holding the key is `first_index`.
pub proof fn lemma_first_index_unique(keys: Seq<Seq<char>>, k: Seq<char>, i: int)
    requires
        0 <= i < keys.len(),
        keys[i] == k,
        forall|j: int| 0 <= j < i ==> keys[j] != k,
    ensures
        first_index(keys, k) == Some(i),
{
    lemma_first_index(keys, k);
}

/// A position characterised as the greatest one holding the key is `last_index`.
pub proof fn lemma_last_index_unique(keys: Seq<Seq<char>>, k: Seq<char>, i: int)
    requires
        0 <= i < keys.len(),
        keys[i] == k,
        forall|j: int| i < j < keys.len() ==> keys[j] != k,
    ensures
        last_index(keys, k) == Some(i),
{
    lemma_last_index(keys, k);
}

/// Where the first entry of key `k` stands.
pub fn find_first<V>(v: &Vec<(String, V)>, k: &str) -> (r: Option<usize>)
    ensures
        match r {
            Some(i) => first_index(keys_of(v@), k@) == Some(i as int) && i < v@.len(),
            None => first_index(keys_of(v@), k@) is None,
        },
{
    let ghost keys = keys_of(v@);
    let mut i: usize = 0;
    while i < v.len()
        invariant
            i <= v@.len(),
            keys == keys_of(v@),
            forall|j: int| 0 <= j < i ==> keys[j] != k@,
        decreases v@.len() - i,
    {
        if text::str_eq(v[i].0.as_str(), k) {
            proof {
                lemma_first_index_unique(keys, k@, i as int);
            }
            return Some(i);
        }
        i += 1;
    }
    proof {
        lemma_first_index(keys, k@);
    }
    None
}

/// Where the last entry of key `k` stands.
pub fn find_last<V>(v: &Vec<(String, V)>, k: &str) -> (r: Option<usize>)
    ensures
        match r {
            Some(i) => last_index(keys_of(v@), k@) == Some(i as int) && i < v@.len(),
            None => last_index(keys_of(v@), k@) is None,
        },
{
    let ghost keys = keys_of(v@);
    let mut i: usize = v.len();
    while i > 0
        invariant
            i <= v@.len(),
            keys == keys_of(v@),
            forall|j: int| i <= j < v@.len() ==> keys[j] != k@,
        decreases i,
    {
        i -= 1;
        if text::str_eq(v[i].0.as_str(), k) {
            proof {
                lemma_last_index_unique(keys, k@, i as int);
            }
            return Some(i);
        }
    }
    proof {
        lemma_last_index(keys, k@);
    }
    None
}

} // verus!
