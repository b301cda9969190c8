//! Routing of decoded audio to per-user pipeline workers.
//!
//! The dispatcher owns the worker table: at most one worker per user. It
//! decides when a worker must be spawned, forwards audio to existing
//! ones, and handles barge-in by cancelling the in-flight response token
//! and installing a fresh one.

use vstd::prelude::*;

use crate::kv::{kv_find, kv_insert, kv_remove, spec_get, unique_keys};

verus! {

/// Dispatcher-side record of one worker.
#[derive(Debug, Clone, Copy, PartialEq, Eq, Structural)]
pub struct WorkerHandle {
    /// The cancellation token the worker's current response runs under.
    pub token: u64,
    /// Whether the worker is playing a response right now.
    pub is_playing: bool,
}

/// What the caller must do with an audio chunk.
#[derive(Debug, Clone, Copy, PartialEq, Eq, Structural)]
pub enum DispatchAction {
    /// No worker yet: spawn one running under this token, then forward.
    SpawnWorker { token: u64 },
    /// A worker exists: forward the audio to it.
    Forward,
}

/// Owns the worker table and the barge-in policy.
pub struct Dispatcher {
    workers: Vec<(u64, WorkerHandle)>,
    next_token: u64,
    interrupt_enabled: bool,
    /// Every token that has ever been cancelled.
    cancelled: Ghost<Set<u64>>,
}

impl Dispatcher {
    /// The worker handle recorded for a user.
    pub closed spec fn worker_of(self, user_id: u64) -> Option<WorkerHandle> {
        spec_get(self.workers@, user_id)
    }

    /// The raw worker table.
    pub closed spec fn workers_seq(self) -> Seq<(u64, WorkerHandle)> {
        self.workers@
    }

    /// How many workers are alive.
    pub closed spec fn worker_count(self) -> nat {
        self.workers@.len()
    }

    /// Whether barge-in handling is enabled.
    pub closed spec fn interrupt_enabled_spec(self) -> bool {
        self.interrupt_enabled
    }

    /// Tokens that have been cancelled so far.
    pub closed spec fn cancelled_tokens(self) -> Set<u64> {
        self.cancelled@
    }

    /// One worker per user, each under its own token, and no live worker
    /// runs under a cancelled token.
    pub closed spec fn wf(self) -> bool {
        &&& unique_keys(self.workers@)
        &&& forall|i: int, j: int|
            0 <= i < j < self.workers@.len() ==> (#[trigger] self.workers@[i]).1.token != (
            #[trigger] self.workers@[j]).1.token
        &&& forall|i: int|
            0 <= i < self.workers@.len() ==> (#[trigger] self.workers@[i]).1.token
                < self.next_token
        &&& forall|i: int|
            0 <= i < self.workers@.len() ==> !self.cancelled@.contains(
                (#[trigger] self.workers@[i]).1.token,
            )
        &&& forall|t: u64| #[trigger] self.cancelled@.contains(t) ==> t < self.next_token
    }

    /// After binding `user_id` to `h`, every row is the new one or an
    /// old row of another user.
    proof fn lemma_rows_after_insert(pre: Self, post: Self, user_id: u64, h: WorkerHandle)
        requires
            unique_keys(pre.workers@),
            unique_keys(post.workers@),
            spec_get(post.workers@, user_id) == Some(h),
            forall|i: int|
                0 <= i < post.workers@.len() ==> (#[trigger] post.workers@[i]).0 == user_id
                    || exists|j: int|
                    0 <= j < pre.workers@.len() && pre.workers@[j] == post.workers@[i],
        ensures
            forall|i: int|
                0 <= i < post.workers@.len() ==> (#[trigger] post.workers@[i]) == (user_id, h)
                    || (post.workers@[i].0 != user_id && exists|j: int|
                    0 <= j < pre.workers@.len() && pre.workers@[j] == post.workers@[i]),
    {
        crate::kv::lemma_get_index(post.workers@, user_id);
        assert forall|i: int|
            0 <= i < post.workers@.len() implies (#[trigger] post.workers@[i]) == (user_id, h) || (
        post.workers@[i].0 != user_id && exists|j: int|
            0 <= j < pre.workers@.len() && pre.workers@[j] == post.workers@[i]) by {
            if post.workers@[i].0 == user_id {
                assert(spec_get(post.workers@, user_id) == Some(post.workers@[i].1));
            }
        }
    }

    /// Room for one more token.
    pub open spec fn can_issue(self) -> bool {
        self.next_token_spec() < u64::MAX
    }

    pub fn new(interrupt_enabled: bool) -> (r: Self)
        ensures
            r.wf(),
            r.can_issue(),
            r.next_token_spec() == 0,
            r.interrupt_enabled_spec() == interrupt_enabled,
            r.worker_count() == 0,
            forall|u: u64| #[trigger] r.worker_of(u) is None,
    {
        let r = Dispatcher {
            workers: Vec::new(),
            next_token: 0,
            interrupt_enabled,
            cancelled: Ghost(Set::empty()),
        };
        proof {
            assert forall|u: u64| #[trigger] r.worker_of(u) is None by {
                crate::kv::lemma_get_absent::<WorkerHandle>(r.workers@, u);
            }
        }
        r
    }

    /// Each user has at most one worker: the table cannot hold two
    /// entries for the same user.
    pub proof fn lemma_one_worker_per_user(self, i: int, j: int)
        requires
            self.wf(),
            0 <= i < self.workers_seq().len(),
            0 <= j < self.workers_seq().len(),
            self.workers_seq()[i].0 == self.workers_seq()[j].0,
        ensures
            i == j,
    {
    }

    /// Route one audio chunk: spawn a worker for a new user, forward to
    /// an existing one.
    pub fn dispatch(&mut self, user_id: u64) -> (r: DispatchAction)
        requires
            old(self).wf(),
            old(self).can_issue(),
        ensures
            final(self).wf(),
            final(self).interrupt_enabled_spec() == old(self).interrupt_enabled_spec(),
            final(self).cancelled_tokens() == old(self).cancelled_tokens(),
            final(self).next_token_spec() == old(self).next_token_spec() + (
            if old(self).worker_of(user_id) is Some {
                0int
            } else {
                1int
            }),
            old(self).worker_of(user_id) is Some ==> r == DispatchAction::Forward
                && final(self).worker_of(user_id) == old(self).worker_of(user_id),
            old(self).worker_of(user_id) is None ==> r == (DispatchAction::SpawnWorker {
                token: old(self).next_token_spec(),
            }) && final(self).worker_of(user_id) == Some(
                WorkerHandle { token: old(self).next_token_spec(), is_playing: false },
            ),
            forall|u: u64|
                u != user_id ==> #[trigger] final(self).worker_of(u) == old(self).worker_of(u),
    {
        match kv_find(&self.workers, user_id) {
            Some(_) => DispatchAction::Forward,
            None => {
                let token = self.next_token;
                self.next_token = self.next_token + 1;
                kv_insert(&mut self.workers, user_id, WorkerHandle { token, is_playing: false });
                proof {
                    let h = WorkerHandle { token, is_playing: false };
                    Self::lemma_rows_after_insert(*old(self), *self, user_id, h);
                    assert forall|a: int, b: int|
                        0 <= a < b < self.workers@.len() implies (
                    #[trigger] self.workers@[a]).1.token != (#[trigger] self.workers@[b]).1.token by {
                        lemma_pair_tokens(*old(self), *self, user_id, h, a, b);
                    }
                    assert forall|i: int|
                        0 <= i < self.workers@.len() implies (#[trigger] self.workers@[i]).1.token
                        < self.next_token && !self.cancelled@.contains(
                        self.workers@[i].1.token,
                    ) by {
                        if self.workers@[i] != (user_id, h) {
                            assert(exists|j: int|
                                0 <= j < old(self).workers@.len() && old(self).workers@[j]
                                    == self.workers@[i]);
                            let j = choose|j: int|
                                0 <= j < old(self).workers@.len() && old(self).workers@[j]
                                    == self.workers@[i];
                            assert(old(self).workers@[j].1.token < old(self).next_token_spec());
                            assert(!old(self).cancelled@.contains(old(self).workers@[j].1.token));
                        } else {
                            if self.cancelled@.contains(h.token) {
                                assert(h.token < old(self).next_token_spec());
                            }
                        }
                    }
                }
                DispatchAction::SpawnWorker { token }
            },
        }
    }

    /// The token the next spawn or interrupt will hand out.
    pub closed spec fn next_token_spec(self) -> u64 {
        self.next_token
    }

    /// Drop a worker whose task has exited.
    pub fn remove_worker(&mut self, user_id: u64)
        requires
            old(self).wf(),
        ensures
            final(self).wf(),
            final(self).worker_of(user_id) is None,
            final(self).interrupt_enabled_spec() == old(self).interrupt_enabled_spec(),
            final(self).next_token_spec() == old(self).next_token_spec(),
            final(self).cancelled_tokens() == old(self).cancelled_tokens(),
            forall|u: u64|
                u != user_id ==> #[trigger] final(self).worker_of(u) == old(self).worker_of(u),
    {
        kv_remove(&mut self.workers, user_id);
    }

    /// Record whether a user's worker is playing a response.
    pub fn set_playing(&mut self, user_id: u64, playing: bool)
        requires
            old(self).wf(),
        ensures
            final(self).wf(),
            final(self).interrupt_enabled_spec() == old(self).interrupt_enabled_spec(),
            final(self).cancelled_tokens() == old(self).cancelled_tokens(),
            final(self).next_token_spec() == old(self).next_token_spec(),
            old(self).worker_of(user_id) matches Some(h) ==> final(self).worker_of(user_id)
                == Some(WorkerHandle { token: h.token, is_playing: playing }),
            old(self).worker_of(user_id) is None ==> final(self).worker_of(user_id) is None,
            forall|u: u64|
                u != user_id ==> #[trigger] final(self).worker_of(u) == old(self).worker_of(u),
    {
        match kv_find(&self.workers, user_id) {
            Some(i) => {
                let token = self.workers[i].1.token;
                proof {
                    crate::kv::lemma_get_index(self.workers@, user_id);
                }
                kv_insert(&mut self.workers, user_id, WorkerHandle { token, is_playing: playing });
                proof {
                    let h = WorkerHandle { token, is_playing: playing };
                    Self::lemma_rows_after_insert(*old(self), *self, user_id, h);
                    assert forall|a: int, b: int|
                        0 <= a < b < self.workers@.len() implies (
                    #[trigger] self.workers@[a]).1.token != (#[trigger] self.workers@[b]).1.token by {
                        lemma_pair_tokens(*old(self), *self, user_id, h, a, b);
                    }
                    assert forall|i: int|
                        0 <= i < self.workers@.len() implies (#[trigger] self.workers@[i]).1.token
                        < self.next_token && !self.cancelled@.contains(
                        self.workers@[i].1.token,
                    ) by {
                        if self.workers@[i] != (user_id, h) {
                            assert(exists|j: int|
                                0 <= j < old(self).workers@.len() && old(self).workers@[j]
                                    == self.workers@[i]);
                            let j = choose|j: int|
                                0 <= j < old(self).workers@.len() && old(self).workers@[j]
                                    == self.workers@[i];
                            assert(old(self).workers@[j].1.token < old(self).next_token_spec());
                            assert(!old(self).cancelled@.contains(old(self).workers@[j].1.token));
                        } else {
                            crate::kv::lemma_get_index(old(self).workers@, user_id);
                        }
                    }
                }
            },
            None => {},
        }
    }

    /// Whether a user's worker is currently playing audio.
    pub fn is_user_playing(&self, user_id: u64) -> (r: bool)
        ensures
            r == match self.worker_of(user_id) {
                Some(h) => h.is_playing,
                None => false,
            },
    {
        match kv_find(&self.workers, user_id) {
            Some(i) => self.workers[i].1.is_playing,
            None => false,
        }
    }

    /// Barge-in: when enabled and the user's worker is playing, the
    /// in-flight token is cancelled and returned for the caller to fire,
    /// a fresh token takes its place, and playback is marked stopped.
    /// Otherwise nothing happens.
    pub fn handle_interrupt(&mut self, user_id: u64) -> (r: Option<u64>)
        requires
            old(self).wf(),
            old(self).can_issue(),
        ensures
            final(self).wf(),
            final(self).interrupt_enabled_spec() == old(self).interrupt_enabled_spec(),
            final(self).next_token_spec() == old(self).next_token_spec() + (
            if old(self).interrupt_enabled_spec() && (old(self).worker_of(user_id)
                matches Some(h) && h.is_playing) {
                1int
            } else {
                0int
            }),
            ({
                let interruptible = old(self).interrupt_enabled_spec() && (old(self).worker_of(
                    user_id,
                ) matches Some(h) && h.is_playing);
                if interruptible {
                    let h = old(self).worker_of(user_id).unwrap();
                    &&& r == Some(h.token)
                    &&& final(self).cancelled_tokens() == old(self).cancelled_tokens().insert(
                        h.token,
                    )
                    &&& (final(self).worker_of(user_id) matches Some(h2) && !h2.is_playing
                        && h2.token != h.token && !final(self).cancelled_tokens().contains(
                        h2.token,
                    ))
                } else {
                    &&& r is None
                    &&& final(self).worker_of(user_id) == old(self).worker_of(user_id)
                    &&& final(self).cancelled_tokens() == old(self).cancelled_tokens()
                }
            }),
            forall|u: u64|
                u != user_id ==> #[trigger] final(self).worker_of(u) == old(self).worker_of(u),
    {
        if !self.interrupt_enabled {
            return None;
        }
        match kv_find(&self.workers, user_id) {
            Some(i) => {
                let handle = self.workers[i].1;
                proof {
                    crate::kv::lemma_get_index(self.workers@, user_id);
                }
                if handle.is_playing {
                    let fresh = self.next_token;
                    self.next_token = self.next_token + 1;
                    kv_insert(
                        &mut self.workers,
                        user_id,
                        WorkerHandle { token: fresh, is_playing: false },
                    );
                    proof {
                        self.cancelled@ = self.cancelled@.insert(handle.token);
                        let h = WorkerHandle { token: fresh, is_playing: false };
                        Self::lemma_rows_after_insert(*old(self), *self, user_id, h);
                        crate::kv::lemma_get_index(old(self).workers@, user_id);
                        assert forall|a: int, b: int|
                            0 <= a < b < self.workers@.len() implies (
                        #[trigger] self.workers@[a]).1.token != (
                        #[trigger] self.workers@[b]).1.token by {
                            lemma_pair_tokens(*old(self), *self, user_id, h, a, b);
                        }
                        assert forall|j: int|
                            0 <= j < self.workers@.len() implies !self.cancelled@.contains(
                            (#[trigger] self.workers@[j]).1.token,
                        ) && self.workers@[j].1.token < self.next_token by {
                            if self.workers@[j] == (user_id, h) {
                                assert(h.token == old(self).next_token_spec());
                            } else {
                                assert(exists|k: int|
                                    0 <= k < old(self).workers@.len() && old(self).workers@[k]
                                        == self.workers@[j]);
                                let k = choose|k: int|
                                    0 <= k < old(self).workers@.len() && old(self).workers@[k]
                                        == self.workers@[j];
                                assert(!old(self).cancelled@.contains(
                                    old(self).workers@[k].1.token,
                                ));
                                let ui = choose|ui: int|
                                    0 <= ui < old(self).workers@.len() && (
                                    #[trigger] old(self).workers@[ui]).0 == user_id;
                                if k != ui {
                                    assert(old(self).workers@[k].1.token
                                        != old(self).workers@[ui].1.token);
                                } else {
                                    assert(old(self).workers@[k].1.token == handle.token);
                                    assert(self.workers@[j].0 == user_id);
                                    assert(false);
                                }
                            }
                        }
                    }
                    Some(handle.token)
                } else {
                    None
                }
            },
            None => None,
        }
    }
}

/// Two distinct rows after an insert carry distinct tokens, provided the
/// inserted token is the fresh one or the user's previous one.
proof fn lemma_pair_tokens(
    pre: Dispatcher,
    post: Dispatcher,
    user_id: u64,
    h: WorkerHandle,
    a: int,
    b: int,
)
    requires
        pre.wf(),
        unique_keys(post.workers_seq()),
        0 <= a < b < post.workers_seq().len(),
        forall|i: int|
            0 <= i < post.workers_seq().len() ==> (#[trigger] post.workers_seq()[i]) == (
                user_id,
                h,
            ) || (post.workers_seq()[i].0 != user_id && exists|j: int|
                0 <= j < pre.workers_seq().len() && pre.workers_seq()[j] == post.workers_seq()[i]),
        h.token >= pre.next_token_spec() || (spec_get(pre.workers_seq(), user_id) matches Some(hp)
            && hp.token == h.token),
    ensures
        post.workers_seq()[a].1.token != post.workers_seq()[b].1.token,
{
    let pw = pre.workers_seq();
    let qw = post.workers_seq();
    let ra = qw[a];
    let rb = qw[b];
    if ra == (user_id, h) && rb == (user_id, h) {
        assert(ra.0 == user_id && rb.0 == user_id);
        assert(false);
    } else if ra == (user_id, h) || rb == (user_id, h) {
        let other = if ra == (user_id, h) {
            rb
        } else {
            ra
        };
        assert(other.0 != user_id && exists|j: int| 0 <= j < pw.len() && pw[j] == other);
        let j = choose|j: int| 0 <= j < pw.len() && pw[j] == other;
        if h.token >= pre.next_token_spec() {
            assert(pw[j].1.token < pre.next_token_spec());
        } else {
            crate::kv::lemma_get_index(pw, user_id);
            let ui = choose|ui: int| 0 <= ui < pw.len() && (#[trigger] pw[ui]).0 == user_id;
            assert(other.0 != user_id);
            assert(j != ui);
            assert(pw[j].1.token != pw[ui].1.token);
        }
    } else {
        assert(exists|j: int| 0 <= j < pw.len() && pw[j] == ra);
        assert(exists|j: int| 0 <= j < pw.len() && pw[j] == rb);
        let ja = choose|j: int| 0 <= j < pw.len() && pw[j] == ra;
        let jb = choose|j: int| 0 <= j < pw.len() && pw[j] == rb;
        if ja == jb {
            assert(ra == rb);
            assert(ra.0 == rb.0);
            assert(false);
        }
        assert(pw[ja].1.token != pw[jb].1.token);
    }
}

} // verus!
