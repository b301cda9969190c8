//! Small association-list maps with unique keys.
//!
//! Several components keep per-guild, per-user or per-index state in a
//! table keyed by an unsigned integer. These helpers give such tables a
//! common shape: a `Vec` of key/value pairs with pairwise-distinct keys,
//! looked up by the spec function [`spec_get`].

use vstd::prelude::*;

verus! {

/// First value bound to `k`, scanning left to right.
pub open spec fn spec_get<V>(s: Seq<(u64, V)>, k: u64) -> Option<V>
    decreases s.len(),
{
    if s.len() == 0 {
        None
    } else if s[0].0 == k {
        Some(s[0].1)
    } else {
        spec_get(s.drop_first(), k)
    }
}

/// All keys of the table are pairwise distinct.
pub open spec fn unique_keys<V>(s: Seq<(u64, V)>) -> bool {
    forall|i: int, j: int| 0 <= i < j < s.len() ==> (#[trigger] s[i]).0 != (#[trigger] s[j]).0
}

pub proof fn lemma_get_present<V>(s: Seq<(u64, V)>, k: u64, i: int)
    requires
        0 <= i < s.len(),
        s[i].0 == k,
        forall|j: int| 0 <= j < i ==> (#[trigger] s[j]).0 != k,
    ensures
        spec_get(s, k) == Some(s[i].1),
    decreases s.len(),
{
    if i > 0 {
        lemma_get_present(s.drop_first(), k, i - 1);
    }
}

pub proof fn lemma_get_absent<V>(s: Seq<(u64, V)>, k: u64)
    requires
        forall|j: int| 0 <= j < s.len() ==> (#[trigger] s[j]).0 != k,
    ensures
        spec_get(s, k) == None::<V>,
    decreases s.len(),
{
    if s.len() > 0 {
        lemma_get_absent(s.drop_first(), k);
    }
}

/// Looking a key up is deciding whether some entry carries it.
pub proof fn lemma_get_index<V>(s: Seq<(u64, V)>, k: u64)
    requires
        unique_keys(s),
    ensures
        spec_get(s, k) is Some <==> exists|i: int| 0 <= i < s.len() && (#[trigger] s[i]).0 == k,
        forall|i: int|
            0 <= i < s.len() && (#[trigger] s[i]).0 == k ==> spec_get(s, k) == Some(s[i].1),
    decreases s.len(),
{
    if s.len() > 0 {
        lemma_get_index(s.drop_first(), k);
        if s[0].0 != k {
            assert(forall|i: int|
                0 < i < s.len() ==> (#[trigger] s[i]) == s.drop_first()[i - 1]);
        }
    }
}

/// Find the index of the first entry for `k`, if one exists.
pub fn kv_find<V>(v: &Vec<(u64, V)>, k: u64) -> (r: Option<usize>)
    ensures
        match r {
            Some(i) => i < v@.len() && v@[i as int].0 == k && forall|j: int|
                0 <= j < i ==> (#[trigger] v@[j]).0 != k,
            None => forall|j: int| 0 <= j < v@.len() ==> (#[trigger] v@[j]).0 != k,
        },
        r is Some <==> spec_get(v@, k) is Some,
        r matches Some(i) ==> spec_get(v@, k) == Some(v@[i as int].1),
{
    let n = v.len();
    let mut i: usize = 0;
    while i < n
        invariant
            n == v@.len(),
            i <= n,
            forall|j: int| 0 <= j < i ==> (#[trigger] v@[j]).0 != k,
        decreases n - i,
    {
        if v[i].0 == k {
            proof {
                lemma_get_present(v@, k, i as int);
            }
            return Some(i);
        }
        i = i + 1;
    }
    proof {
        lemma_get_absent(v@, k);
    }
    None
}

/// Bind `k` to `value`, replacing any entry it already has.
pub fn kv_insert<V>(v: &mut Vec<(u64, V)>, k: u64, value: V)
    requires
        unique_keys(old(v)@),
    ensures
        unique_keys(final(v)@),
        spec_get(final(v)@, k) == Some(value),
        forall|k2: u64| k2 != k ==> spec_get(final(v)@, k2) == spec_get(old(v)@, k2),
        final(v)@.len() == if spec_get(old(v)@, k) is Some {
            old(v)@.len()
        } else {
            old(v)@.len() + 1
        },
        forall|i: int|
            0 <= i < final(v)@.len() ==> (#[trigger] final(v)@[i]).0 == k || exists|j: int|
                0 <= j < old(v)@.len() && old(v)@[j] == final(v)@[i],
        spec_get(old(v)@, k) is None ==> final(v)@ == old(v)@.push((k, value)),
{
    let ghost s0 = v@;
    match kv_find(v, k) {
        Some(i) => {
            v[i] = (k, value);
            proof {
                lemma_get_present(v@, k, i as int);
                assert forall|k2: u64| k2 != k implies spec_get(v@, k2) == spec_get(
                    s0,
                    k2,
                ) by {
                    lemma_get_frame(s0, v@, k2);
                }
            }
        },
        None => {
            v.push((k, value));
            proof {
                lemma_get_present(v@, k, v@.len() - 1);
                assert forall|k2: u64| k2 != k implies spec_get(v@, k2) == spec_get(
                    s0,
                    k2,
                ) by {
                    lemma_get_frame(s0, v@, k2);
                }
            }
        },
    }
}

/// Two tables that agree on every entry carrying `k2` agree on `k2`.
proof fn lemma_get_frame<V>(s1: Seq<(u64, V)>, s2: Seq<(u64, V)>, k2: u64)
    requires
        s1.len() <= s2.len(),
        forall|i: int|
            0 <= i < s1.len() && ((#[trigger] s1[i]).0 == k2 || (#[trigger] s2[i]).0 == k2)
                ==> s1[i] == s2[i],
        forall|i: int| s1.len() <= i < s2.len() ==> (#[trigger] s2[i]).0 != k2,
    ensures
        spec_get(s1, k2) == spec_get(s2, k2),
    decreases s2.len(),
{
    if s1.len() == 0 {
        lemma_get_absent(s2, k2);
    } else if s1[0].0 == k2 || s2[0].0 == k2 {
        assert(s1[0] == s2[0]);
    } else {
        assert(forall|i: int|
            0 < i < s1.len() ==> (#[trigger] s1.drop_first()[i - 1]) == s1[i]);
        lemma_get_frame(s1.drop_first(), s2.drop_first(), k2);
    }
}

/// Remove the entry for `k`, returning its value if it was there.
pub fn kv_remove<V>(v: &mut Vec<(u64, V)>, k: u64) -> (r: Option<V>)
    requires
        unique_keys(old(v)@),
    ensures
        unique_keys(final(v)@),
        r == spec_get(old(v)@, k),
        spec_get(final(v)@, k) == None::<V>,
        forall|k2: u64| k2 != k ==> spec_get(final(v)@, k2) == spec_get(old(v)@, k2),
        final(v)@.len() == if spec_get(old(v)@, k) is Some {
            old(v)@.len() - 1
        } else {
            old(v)@.len() as int
        },
        forall|i: int|
            0 <= i < final(v)@.len() ==> exists|j: int|
                0 <= j < old(v)@.len() && old(v)@[j] == (#[trigger] final(v)@[i]),
{
    let ghost s0 = v@;
    match kv_find(v, k) {
        Some(i) => {
            let (_, value) = v.remove(i);
            proof {
                lemma_remove_get(s0, k, i as int);
            }
            Some(value)
        },
        None => {
            proof {
                lemma_get_absent(v@, k);
            }
            None
        },
    }
}

proof fn lemma_remove_get<V>(s: Seq<(u64, V)>, k: u64, i: int)
    requires
        unique_keys(s),
        0 <= i < s.len(),
        s[i].0 == k,
    ensures
        unique_keys(s.remove(i)),
        spec_get(s.remove(i), k) == None::<V>,
        forall|k2: u64| k2 != k ==> spec_get(s.remove(i), k2) == spec_get(s, k2),
{
    let t = s.remove(i);
    assert forall|j: int| 0 <= j < t.len() implies (#[trigger] t[j]).0 != k by {
        if j < i {
            assert(t[j] == s[j]);
        } else {
            assert(t[j] == s[j + 1]);
        }
    }
    lemma_get_absent(t, k);
    assert forall|k2: u64| k2 != k implies spec_get(t, k2) == spec_get(s, k2) by {
        lemma_get_index(s, k2);
        lemma_get_index(t, k2);
        if spec_get(s, k2) is Some {
            let j = choose|j: int| 0 <= j < s.len() && (#[trigger] s[j]).0 == k2;
            if j < i {
                assert(t[j] == s[j]);
            } else {
                assert(t[j - 1] == s[j]);
            }
        } else {
            assert forall|j: int| 0 <= j < t.len() implies (#[trigger] t[j]).0 != k2 by {
                if j < i {
                    assert(t[j] == s[j]);
                } else {
                    assert(t[j] == s[j + 1]);
                }
            }
        }
    }
}

} // verus!
