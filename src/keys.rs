use vstd::prelude::*;

use crate::text::str_eq;

verus! {

/// The keys of a list of named entries.
pub open spec fn model_keys<V>(e: Seq<(Seq<char>, V)>) -> Seq<Seq<char>> {
    e.map_values(|p: (Seq<char>, V)| p.0)
}

/// The keys of a list of entries named by owned strings.
pub open spec fn key_seq<V>(v: Seq<(String, V)>) -> Seq<Seq<char>> {
    v.map_values(|p: (String, V)| p.0@)
}

/// The index of the first occurrence of `k` in `keys`, or -1.
pub open spec fn first_index(keys: Seq<Seq<char>>, k: Seq<char>) -> int
    decreases keys.len(),
{
    if keys.len() == 0 {
        -1
    } else {
        let f = first_index(keys.drop_last(), k);
        if f >= 0 {
            f
        } else if keys.last() == k {
            keys.len() - 1
        } else {
            -1
        }
    }
}

/// No key occurs twice.
pub open spec fn keys_unique(keys: Seq<Seq<char>>) -> bool {
    forall|i: int, j: int| 0 <= i < j < keys.len() ==> keys[i] != keys[j]
}

pub proof fn lemma_first_index(keys: Seq<Seq<char>>, k: Seq<char>)
    ensures
        first_index(keys, k) == -1 <==> forall|i: int| 0 <= i < keys.len() ==> keys[i] != k,
        first_index(keys, k) >= 0 ==> {
            &&& first_index(keys, k) < keys.len()
            &&& keys[first_index(keys, k)] == k
            &&& forall|j: int| 0 <= j < first_index(keys, k) ==> keys[j] != k
        },
        first_index(keys, k) >= -1,
    decreases keys.len(),
{
    if keys.len() > 0 {
        let init = keys.drop_last();
        lemma_first_index(init, k);
        if first_index(init, k) == -1 && keys.last() != k {
            assert forall|i: int| 0 <= i < keys.len() implies keys[i] != k by {
                if i < keys.len() - 1 {
                    assert(init[i] == keys[i]);
                }
            }
        }
        assert forall|j: int| 0 <= j < init.len() implies keys[j] == init[j] by {}
        if first_index(init, k) >= 0 {
            assert(keys[first_index(init, k)] == init[first_index(init, k)]);
        }
    }
}

/// With unique keys, the first index of a key is the only one.
pub proof fn lemma_first_index_unique(keys: Seq<Seq<char>>, i: int)
    requires
        keys_unique(keys),
        0 <= i < keys.len(),
    ensures
        first_index(keys, keys[i]) == i,
{
    lemma_first_index(keys, keys[i]);
}

/// The index of the first entry named `k`.
pub fn find_key<V>(v: &Vec<(String, V)>, k: &str) -> (r: Option<usize>)
    ensures
        match r {
            Some(i) => i as int == first_index(key_seq(v@), k@),
            None => first_index(key_seq(v@), k@) == -1,
        },
{
    let n = v.len();
    let mut i: usize = 0;
    while i < n
        invariant
            n == v@.len(),
            i <= n,
            first_index(key_seq(v@).subrange(0, i as int), k@) == -1,
        decreases n - i,
    {
        let ghost keys = key_seq(v@);
        proof {
            assert(keys.subrange(0, i + 1).drop_last() =~= keys.subrange(0, i as int));
        }
        if str_eq(v[i].0.as_str(), k) {
            proof {
                assert(keys.subrange(0, i + 1).last() == keys[i as int]);
                lemma_prefix_first_index(keys, k@, i + 1);
            }
            return Some(i);
        }
        i += 1;
    }
    assert(key_seq(v@).subrange(0, n as int) =~= key_seq(v@));
    None
}

/// A key found in a prefix has the same first index in the whole list.
pub proof fn lemma_prefix_first_index(keys: Seq<Seq<char>>, k: Seq<char>, n: int)
    requires
        0 <= n <= keys.len(),
        first_index(keys.subrange(0, n), k) >= 0,
    ensures
        first_index(keys, k) == first_index(keys.subrange(0, n), k),
    decreases keys.len() - n,
{
    if n < keys.len() {
        let p = keys.subrange(0, n + 1);
        assert(p.drop_last() =~= keys.subrange(0, n));
        lemma_prefix_first_index(keys, k, n + 1);
    } else {
        assert(keys.subrange(0, n) =~= keys);
    }
}

} // verus!
