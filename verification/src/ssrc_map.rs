//! Speaker-source-id to user-identity mapping.
//!
//! Media packets carry a per-stream source id; speaking events tie it to
//! a user. The table binds each source id to at most one user and each
//! user to at most one source id, so the association is one-to-one.

use vstd::prelude::*;

use crate::kv::{kv_find, kv_insert, kv_remove, spec_get, unique_keys};

verus! {

/// First source id bound to `user_id`, scanning in table order.
pub open spec fn spec_ssrc_of(s: Seq<(u64, (u64, String))>, user_id: u64) -> Option<u64>
    decreases s.len(),
{
    if s.len() == 0 {
        None
    } else if s[0].1.0 == user_id {
        Some(s[0].0)
    } else {
        spec_ssrc_of(s.drop_first(), user_id)
    }
}

proof fn lemma_ssrc_of_present(s: Seq<(u64, (u64, String))>, user_id: u64, i: int)
    requires
        0 <= i < s.len(),
        s[i].1.0 == user_id,
        forall|j: int| 0 <= j < i ==> (#[trigger] s[j]).1.0 != user_id,
    ensures
        spec_ssrc_of(s, user_id) == Some(s[i].0),
    decreases s.len(),
{
    if i > 0 {
        lemma_ssrc_of_present(s.drop_first(), user_id, i - 1);
    }
}

proof fn lemma_ssrc_of_absent(s: Seq<(u64, (u64, String))>, user_id: u64)
    requires
        forall|j: int| 0 <= j < s.len() ==> (#[trigger] s[j]).1.0 != user_id,
    ensures
        spec_ssrc_of(s, user_id) == None::<u64>,
    decreases s.len(),
{
    if s.len() > 0 {
        lemma_ssrc_of_absent(s.drop_first(), user_id);
    }
}

/// With pairwise-distinct users, looking a user up is deciding whether
/// some entry carries them.
proof fn lemma_ssrc_of_index(s: Seq<(u64, (u64, String))>, user_id: u64)
    requires
        forall|i: int, j: int|
            0 <= i < j < s.len() ==> (#[trigger] s[i]).1.0 != (#[trigger] s[j]).1.0,
    ensures
        spec_ssrc_of(s, user_id) is Some <==> exists|i: int|
            0 <= i < s.len() && (#[trigger] s[i]).1.0 == user_id,
        forall|i: int|
            0 <= i < s.len() && (#[trigger] s[i]).1.0 == user_id ==> spec_ssrc_of(s, user_id)
                == Some(s[i].0),
    decreases s.len(),
{
    if s.len() > 0 {
        assert(forall|i: int, j: int|
            0 <= i < j < s.drop_first().len() ==> (#[trigger] s.drop_first()[i]).1.0 != (
            #[trigger] s.drop_first()[j]).1.0);
        lemma_ssrc_of_index(s.drop_first(), user_id);
        if s[0].1.0 != user_id {
            assert(forall|i: int| 0 < i < s.len() ==> (#[trigger] s[i]) == s.drop_first()[i - 1]);
        }
    }
}

/// Removing one entry unbinds exactly its source id and its user.
proof fn lemma_removed_entry_frames(
    pre: Seq<(u64, (u64, String))>,
    post: Seq<(u64, (u64, String))>,
    rm: int,
)
    requires
        unique_keys(pre),
        forall|i: int, j: int|
            0 <= i < j < pre.len() ==> (#[trigger] pre[i]).1.0 != (#[trigger] pre[j]).1.0,
        0 <= rm < pre.len(),
        post == pre.remove(rm),
    ensures
        forall|k: u64| k != pre[rm].0 ==> #[trigger] spec_get(post, k) == spec_get(pre, k),
        spec_get(post, pre[rm].0) is None,
        forall|u: u64| u != pre[rm].1.0 ==> #[trigger] spec_ssrc_of(post, u) == spec_ssrc_of(
            pre,
            u,
        ),
        spec_ssrc_of(post, pre[rm].1.0) is None,
{
    assert(forall|j: int|
        0 <= j < post.len() ==> #[trigger] post[j] == if j < rm {
            pre[j]
        } else {
            pre[j + 1]
        });
    lemma_entries_remove_props(pre, post, rm);
    assert forall|j: int| 0 <= j < post.len() implies (#[trigger] post[j]).0 != pre[rm].0 by {
        if j < rm {
            assert(pre[j].0 != pre[rm].0);
        } else {
            assert(pre[rm].0 != pre[j + 1].0);
        }
    }
    crate::kv::lemma_get_absent(post, pre[rm].0);
    assert forall|j: int| 0 <= j < post.len() implies (#[trigger] post[j]).1.0 != pre[rm].1.0 by {
        if j < rm {
            assert(pre[j].1.0 != pre[rm].1.0);
        } else {
            assert(pre[rm].1.0 != pre[j + 1].1.0);
        }
    }
    lemma_ssrc_of_absent(post, pre[rm].1.0);
    assert forall|k: u64| k != pre[rm].0 implies #[trigger] spec_get(post, k) == spec_get(
        pre,
        k,
    ) by {
        crate::kv::lemma_get_index(pre, k);
        crate::kv::lemma_get_index(post, k);
        if spec_get(pre, k) is Some {
            let i = choose|i: int| 0 <= i < pre.len() && (#[trigger] pre[i]).0 == k;
            if i < rm {
                assert(post[i] == pre[i]);
            } else {
                assert(post[i - 1] == pre[i]);
            }
        } else {
            assert forall|j: int| 0 <= j < post.len() implies (#[trigger] post[j]).0 != k by {
                if j < rm {
                    assert(post[j] == pre[j]);
                } else {
                    assert(post[j] == pre[j + 1]);
                }
            }
            crate::kv::lemma_get_absent(post, k);
        }
    }
    assert forall|u: u64| u != pre[rm].1.0 implies #[trigger] spec_ssrc_of(post, u)
        == spec_ssrc_of(pre, u) by {
        lemma_ssrc_of_index(pre, u);
        lemma_ssrc_of_index(post, u);
        if spec_ssrc_of(pre, u) is Some {
            let i = choose|i: int| 0 <= i < pre.len() && (#[trigger] pre[i]).1.0 == u;
            if i < rm {
                assert(post[i] == pre[i]);
            } else {
                assert(post[i - 1] == pre[i]);
            }
        } else {
            assert forall|j: int| 0 <= j < post.len() implies (#[trigger] post[j]).1.0 != u by {
                if j < rm {
                    assert(post[j] == pre[j]);
                } else {
                    assert(post[j] == pre[j + 1]);
                }
            }
            lemma_ssrc_of_absent(post, u);
        }
    }
}

/// Appending an entry binds only its own user.
proof fn lemma_ssrc_of_push(s: Seq<(u64, (u64, String))>, e: (u64, (u64, String)), u: u64)
    requires
        u != e.1.0,
    ensures
        spec_ssrc_of(s.push(e), u) == spec_ssrc_of(s, u),
    decreases s.len(),
{
    if s.len() == 0 {
        assert(s.push(e).drop_first() =~= Seq::<(u64, (u64, String))>::empty());
        assert(spec_ssrc_of(Seq::<(u64, (u64, String))>::empty(), u) is None);
        assert(s.push(e)[0] == e);
        assert(spec_ssrc_of(s.push(e), u) is None);
        assert(spec_ssrc_of(s, u) is None);
    } else {
        assert(s.push(e).drop_first() =~= s.drop_first().push(e));
        lemma_ssrc_of_push(s.drop_first(), e, u);
    }
}

/// Bidirectional map between source ids and user identities.
pub struct SsrcUserMap {
    /// source id -> (user id, username)
    entries: Vec<(u64, (u64, String))>,
}

impl SsrcUserMap {
    /// The user bound to a source id, with the display name's view.
    pub closed spec fn user_of(self, ssrc: u32) -> Option<(u64, Seq<char>)> {
        match spec_get(self.entries@, ssrc as u64) {
            Some(p) => Some((p.0, p.1@)),
            None => None,
        }
    }

    /// The source id bound to a user.
    pub closed spec fn ssrc_of(self, user_id: u64) -> Option<u64> {
        spec_ssrc_of(self.entries@, user_id)
    }

    /// How many source ids are mapped.
    pub closed spec fn count(self) -> nat {
        self.entries@.len()
    }

    /// Source ids appear once, user ids appear once: one-to-one.
    pub closed spec fn wf(self) -> bool {
        &&& unique_keys(self.entries@)
        &&& forall|i: int, j: int|
            0 <= i < j < self.entries@.len() ==> (#[trigger] self.entries@[i]).1.0 != (
            #[trigger] self.entries@[j]).1.0
        &&& forall|i: int|
            0 <= i < self.entries@.len() ==> (#[trigger] self.entries@[i]).0 <= u32::MAX
    }

    pub fn new() -> (r: Self)
        ensures
            r.wf(),
            r.count() == 0,
            forall|s: u32| #[trigger] r.user_of(s) is None,
            forall|u: u64| #[trigger] r.ssrc_of(u) is None,
    {
        let r = SsrcUserMap { entries: Vec::new() };
        proof {
            assert forall|s: u32| #[trigger] r.user_of(s) is None by {
                crate::kv::lemma_get_absent::<(u64, String)>(r.entries@, s as u64);
            }
            assert forall|u: u64| #[trigger] r.ssrc_of(u) is None by {
                lemma_ssrc_of_absent(r.entries@, u);
            }
        }
        r
    }

    /// A user never holds two source ids at once.
    pub proof fn lemma_one_stream_per_user(self, s1: u32, s2: u32, u: u64)
        requires
            self.wf(),
            self.user_of(s1) is Some && self.user_of(s1).unwrap().0 == u,
            self.user_of(s2) is Some && self.user_of(s2).unwrap().0 == u,
        ensures
            s1 == s2,
    {
        crate::kv::lemma_get_index(self.entries@, s1 as u64);
        crate::kv::lemma_get_index(self.entries@, s2 as u64);
        let i1 = choose|i: int|
            0 <= i < self.entries@.len() && (#[trigger] self.entries@[i]).0 == s1 as u64;
        let i2 = choose|i: int|
            0 <= i < self.entries@.len() && (#[trigger] self.entries@[i]).0 == s2 as u64;
        if i1 != i2 {
            assert(self.entries@[i1].1.0 != self.entries@[i2].1.0);
        }
    }

    /// Find the index of the entry whose user is `user_id`.
    fn find_by_user(&self, user_id: u64) -> (r: Option<usize>)
        ensures
            match r {
                Some(i) => i < self.entries@.len() && self.entries@[i as int].1.0 == user_id
                    && forall|j: int| 0 <= j < i ==> (#[trigger] self.entries@[j]).1.0 != user_id,
                None => forall|j: int|
                    0 <= j < self.entries@.len() ==> (#[trigger] self.entries@[j]).1.0 != user_id,
            },
    {
        let n = self.entries.len();
        let mut i: usize = 0;
        while i < n
            invariant
                n == self.entries@.len(),
                i <= n,
                forall|j: int| 0 <= j < i ==> (#[trigger] self.entries@[j]).1.0 != user_id,
            decreases n - i,
        {
            if self.entries[i].1.0 == user_id {
                return Some(i);
            }
            i = i + 1;
        }
        None
    }

    /// Bind a source id to a user from a speaking event. The user's
    /// prior source id and the source id's prior user are unbound first;
    /// every other binding stays as it was.
    #[verifier::rlimit(60)]
    pub fn update_from_speaking(&mut self, ssrc: u32, user_id: u64, username: String)
        requires
            old(self).wf(),
        ensures
            final(self).wf(),
            final(self).user_of(ssrc) == Some((user_id, username@)),
            final(self).ssrc_of(user_id) == Some(ssrc as u64),
            old(self).ssrc_of(user_id) matches Some(s0) ==> (s0 != ssrc as u64
                ==> final(self).user_of(s0 as u32) is None),
            old(self).user_of(ssrc) matches Some(p) ==> (p.0 != user_id
                ==> final(self).ssrc_of(p.0) is None),
            forall|s: u32|
                s != ssrc && old(self).ssrc_of(user_id) != Some(s as u64)
                    ==> #[trigger] final(self).user_of(s) == old(self).user_of(s),
            forall|u: u64|
                u != user_id && old(self).ssrc_of(u) != Some(ssrc as u64)
                    ==> #[trigger] final(self).ssrc_of(u) == old(self).ssrc_of(u),
    {
        let ghost s0 = self.entries@;
        match self.find_by_user(user_id) {
            Some(i) => {
                proof {
                    lemma_ssrc_of_present(s0, user_id, i as int);
                }
                let _ = self.entries.remove(i);
                proof {
                    lemma_entries_remove_props(s0, self.entries@, i as int);
                    lemma_removed_entry_frames(s0, self.entries@, i as int);
                }
            },
            None => {
                proof {
                    lemma_ssrc_of_absent(s0, user_id);
                }
            },
        }
        let ghost s1 = self.entries@;
        match kv_find(&self.entries, ssrc as u64) {
            Some(i) => {
                proof {
                    crate::kv::lemma_get_index(s1, ssrc as u64);
                    lemma_ssrc_of_present(s1, s1[i as int].1.0, i as int);
                }
                let _ = self.entries.remove(i);
                proof {
                    lemma_entries_remove_props(s1, self.entries@, i as int);
                    lemma_removed_entry_frames(s1, self.entries@, i as int);
                }
            },
            None => {},
        }
        let ghost s2 = self.entries@;
        proof {
            crate::kv::lemma_get_index(s2, ssrc as u64);
            if spec_get(s2, ssrc as u64) is Some {
                assert(false);
            }
        }
        kv_insert(&mut self.entries, ssrc as u64, (user_id, username));
        proof {
            crate::kv::lemma_get_index(self.entries@, ssrc as u64);
            let n = self.entries@.len();
            assert(forall|j: int| 0 <= j < n - 1 ==> #[trigger] self.entries@[j] == s2[j]);
            assert forall|i: int, j: int|
                0 <= i < j < n implies (#[trigger] self.entries@[i]).1.0 != (
            #[trigger] self.entries@[j]).1.0 by {
                if j == n - 1 {
                    assert(self.entries@[i] == s2[i]);
                }
            }
            assert forall|j: int| 0 <= j < n - 1 implies (#[trigger] self.entries@[j]).1.0
                != user_id by {
                assert(self.entries@[j] == s2[j]);
            }
            assert forall|j: int| 0 <= j < n implies (#[trigger] self.entries@[j]).0
                <= u32::MAX by {
                if j < n - 1 {
                    assert(self.entries@[j] == s2[j]);
                }
            }
            lemma_ssrc_of_present(self.entries@, user_id, n - 1);
            assert(self.entries@ == s2.push((ssrc as u64, (user_id, username))));
            // Bindings other than the touched ones survive each step.
            assert forall|s: u32|
                s != ssrc && old(self).ssrc_of(user_id) != Some(s as u64)
                    implies #[trigger] self.user_of(s) == old(self).user_of(s) by {
                assert(spec_get(self.entries@, s as u64) == spec_get(s2, s as u64));
                assert(spec_get(s2, s as u64) == spec_get(s1, s as u64));
                assert(spec_get(s1, s as u64) == spec_get(s0, s as u64));
            }
            assert forall|u: u64|
                u != user_id && old(self).ssrc_of(u) != Some(ssrc as u64)
                    implies #[trigger] self.ssrc_of(u) == old(self).ssrc_of(u) by {
                lemma_ssrc_of_push(s2, (ssrc as u64, (user_id, username)), u);
                if spec_get(s1, ssrc as u64) is Some {
                    // the removed second entry carried another user, who
                    // by uniqueness was bound to this very source id
                    crate::kv::lemma_get_index(s1, ssrc as u64);
                    let i = choose|i: int|
                        0 <= i < s1.len() && (#[trigger] s1[i]).0 == ssrc as u64;
                    lemma_ssrc_of_present(s1, s1[i].1.0, i);
                    if u == s1[i].1.0 {
                        assert(old(self).ssrc_of(u) == Some(ssrc as u64));
                    }
                    assert(spec_ssrc_of(s2, u) == spec_ssrc_of(s1, u));
                }
                assert(spec_ssrc_of(s1, u) == spec_ssrc_of(s0, u));
            }
            // The user's previous source id is unbound.
            match old(self).ssrc_of(user_id) {
                Some(sprev) => {
                    if sprev != ssrc as u64 {
                        assert(spec_get(s1, sprev) is None);
                        assert(spec_get(s2, sprev) == spec_get(s1, sprev));
                        assert(spec_get(self.entries@, sprev) == spec_get(s2, sprev));
                    }
                },
                None => {},
            }
            // The source id's previous user is unbound.
            match old(self).user_of(ssrc) {
                Some(p) => {
                    if p.0 != user_id {
                        crate::kv::lemma_get_index(s0, ssrc as u64);
                        let i0 = choose|i: int|
                            0 <= i < s0.len() && (#[trigger] s0[i]).0 == ssrc as u64;
                        assert(s0[i0].1.0 == p.0);
                        assert(spec_get(s1, ssrc as u64) == spec_get(s0, ssrc as u64));
                        crate::kv::lemma_get_index(s1, ssrc as u64);
                        let i1 = choose|i: int|
                            0 <= i < s1.len() && (#[trigger] s1[i]).0 == ssrc as u64;
                        assert(spec_get(s1, ssrc as u64) == Some(s1[i1].1));
                        assert(s1[i1].1.0 == p.0);
                        assert(spec_ssrc_of(s2, p.0) is None);
                        lemma_ssrc_of_push(s2, (ssrc as u64, (user_id, username)), p.0);
                    }
                },
                None => {},
            }
        }
    }

    /// The user bound to a source id, if any.
    pub fn get_user(&self, ssrc: u32) -> (r: Option<(u64, String)>)
        ensures
            match r {
                Some(p) => self.user_of(ssrc) == Some((p.0, p.1@)),
                None => self.user_of(ssrc) is None,
            },
    {
        match kv_find(&self.entries, ssrc as u64) {
            Some(i) => {
                let (uid, name) = &self.entries[i].1;
                Some((*uid, name.clone()))
            },
            None => None,
        }
    }

    /// Unbind a user and their source id; nothing else moves, and an
    /// unknown user is a no-op.
    pub fn remove_user(&mut self, user_id: u64)
        requires
            old(self).wf(),
        ensures
            final(self).wf(),
            final(self).ssrc_of(user_id) is None,
            old(self).ssrc_of(user_id) matches Some(s0) ==> final(self).user_of(s0 as u32)
                is None,
            forall|s: u32|
                old(self).ssrc_of(user_id) != Some(s as u64) ==> #[trigger] final(self).user_of(s)
                    == old(self).user_of(s),
            forall|u: u64|
                u != user_id ==> #[trigger] final(self).ssrc_of(u) == old(self).ssrc_of(u),
            final(self).count() == if old(self).ssrc_of(user_id) is Some {
                (old(self).count() - 1) as nat
            } else {
                old(self).count()
            },
    {
        let ghost s0 = self.entries@;
        match self.find_by_user(user_id) {
            Some(i) => {
                proof {
                    lemma_ssrc_of_present(s0, user_id, i as int);
                }
                let _ = self.entries.remove(i);
                proof {
                    lemma_entries_remove_props(s0, self.entries@, i as int);
                    lemma_removed_entry_frames(s0, self.entries@, i as int);
                    assert(s0[i as int].0 <= u32::MAX);
                }
            },
            None => {
                proof {
                    lemma_ssrc_of_absent(s0, user_id);
                }
            },
        }
    }

    /// Number of mapped source ids.
    pub fn active_count(&self) -> (r: usize)
        ensures
            r == self.count(),
    {
        self.entries.len()
    }
}

/// Removing one entry keeps both uniqueness properties.
proof fn lemma_entries_remove_props(
    pre: Seq<(u64, (u64, String))>,
    post: Seq<(u64, (u64, String))>,
    r: int,
)
    requires
        unique_keys(pre),
        forall|i: int, j: int|
            0 <= i < j < pre.len() ==> (#[trigger] pre[i]).1.0 != (#[trigger] pre[j]).1.0,
        0 <= r < pre.len(),
        post == pre.remove(r),
    ensures
        unique_keys(post),
        forall|i: int, j: int|
            0 <= i < j < post.len() ==> (#[trigger] post[i]).1.0 != (#[trigger] post[j]).1.0,
        forall|i: int|
            0 <= i < post.len() ==> (#[trigger] post[i]).0 == pre[if i < r {
                i
            } else {
                i + 1
            }].0,
{
    assert forall|i: int, j: int|
        0 <= i < j < post.len() implies (#[trigger] post[i]).0 != (#[trigger] post[j]).0 && (
    post[i]).1.0 != (post[j]).1.0 by {
        let i0 = if i < r {
            i
        } else {
            i + 1
        };
        let j0 = if j < r {
            j
        } else {
            j + 1
        };
        assert(post[i] == pre[i0]);
        assert(post[j] == pre[j0]);
        assert(pre[i0].0 != pre[j0].0);
    }
}

} // verus!
