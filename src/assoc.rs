// Lists of key/value pairs, read as maps: the first entry under a key wins.
use vstd::prelude::*;

verus! {

/// Position of the first entry with key `k`, or -1 when there is none.
pub open spec fn key_pos<K, V>(s: Seq<(K, V)>, k: K) -> int
    decreases s.len(),
{
    if s.len() == 0 {
        -1
    } else if s[0].0 == k {
        0
    } else {
        let p = key_pos(s.drop_first(), k);
        if p < 0 {
            -1
        } else {
            p + 1
        }
    }
}

/// The value of the first entry with key `k`.
pub open spec fn lookup<K, V>(s: Seq<(K, V)>, k: K) -> Option<V> {
    let p = key_pos(s, k);
    if 0 <= p < s.len() {
        Some(s[p].1)
    } else {
        None
    }
}

pub proof fn lemma_key_pos<K, V>(s: Seq<(K, V)>, k: K)
    ensures
        -1 <= key_pos(s, k) < s.len(),
        key_pos(s, k) >= 0 ==> s[key_pos(s, k)].0 == k,
        forall|j: int| 0 <= j < key_pos(s, k) ==> s[j].0 != k,
        key_pos(s, k) < 0 ==> forall|j: int| 0 <= j < s.len() ==> s[j].0 != k,
    decreases s.len(),
{
    if s.len() > 0 && s[0].0 != k {
        lemma_key_pos(s.drop_first(), k);
        assert forall|j: int| 0 <= j < key_pos(s, k) implies s[j].0 != k by {
            if j > 0 {
                assert(s[j] == s.drop_first()[j - 1]);
            }
        }
        if key_pos(s, k) < 0 {
            assert forall|j: int| 0 <= j < s.len() implies s[j].0 != k by {
                if j > 0 {
                    assert(s[j] == s.drop_first()[j - 1]);
                }
            }
        }
    }
}

/// Two lists with the same keys in the same places find a key at the same place.
pub proof fn lemma_key_pos_same_keys<K, V, W>(a: Seq<(K, V)>, b: Seq<(K, W)>, k: K)
    requires
        a.len() == b.len(),
        forall|i: int| 0 <= i < a.len() ==> a[i].0 == b[i].0,
    ensures
        key_pos(a, k) == key_pos(b, k),
{
    lemma_key_pos(a, k);
    lemma_key_pos(b, k);
    let pa = key_pos(a, k);
    let pb = key_pos(b, k);
    if pa >= 0 {
        assert(b[pa].0 == k);
    }
    if pb >= 0 {
        assert(a[pb].0 == k);
    }
}

/// Index of the first entry with key `k`.
pub fn find_index<V>(s: &Vec<(usize, V)>, k: usize) -> (r: Option<usize>)
    ensures
        match r {
            Some(i) => i == key_pos(s@, k) && i < s@.len(),
            None => key_pos(s@, k) < 0,
        },
{
    let mut i: usize = 0;
    while i < s.len()
        invariant
            i <= s@.len(),
            forall|j: int| 0 <= j < i ==> s@[j].0 != k,
        decreases s@.len() - i,
    {
        if s[i].0 == k {
            proof {
                lemma_key_pos(s@, k);
            }
            return Some(i);
        }
        i = i + 1;
    }
    proof {
        lemma_key_pos(s@, k);
    }
    None
}

/// Index of the first entry with key `k`, for lists keyed by a signed id.
pub fn find_id<V>(s: &Vec<(i32, V)>, k: i32) -> (r: Option<usize>)
    ensures
        match r {
            Some(i) => i == key_pos(s@, k) && i < s@.len(),
            None => key_pos(s@, k) < 0,
        },
{
    let mut i: usize = 0;
    while i < s.len()
        invariant
            i <= s@.len(),
            forall|j: int| 0 <= j < i ==> s@[j].0 != k,
        decreases s@.len() - i,
    {
        if s[i].0 == k {
            proof {
                lemma_key_pos(s@, k);
            }
            return Some(i);
        }
        i = i + 1;
    }
    proof {
        lemma_key_pos(s@, k);
    }
    None
}

} // verus!
