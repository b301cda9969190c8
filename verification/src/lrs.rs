//! Least-recently-spoken tracking for bounded transcription sessions.
//!
//! When a new speaker would exceed the configured number of concurrent
//! sessions, the speaker who has been silent the longest is evicted.

use vstd::prelude::*;

use crate::kv::{kv_find, kv_insert, kv_remove, spec_get, unique_keys};

verus! {

/// Per-speaker activity record.
#[derive(Debug, Clone, Copy, PartialEq, Eq, Structural)]
pub struct UserActivity {
    pub user_id: u64,
    pub ssrc: u32,
    pub last_spoken_at: u64,
}

/// Tracks when each speaker last spoke and finds the stalest.
pub struct LrsTracker {
    activities: Vec<(u64, UserActivity)>,
}

impl LrsTracker {
    /// The activity recorded for a speaker source id.
    pub closed spec fn activity_of(self, ssrc: u32) -> Option<UserActivity> {
        spec_get(self.activities@, ssrc as u64)
    }

    /// How many speakers are tracked.
    pub closed spec fn count(self) -> nat {
        self.activities@.len()
    }

    /// Entries are keyed by their own source id, once each.
    pub closed spec fn wf(self) -> bool {
        &&& unique_keys(self.activities@)
        &&& forall|i: int|
            0 <= i < self.activities@.len() ==> (#[trigger] self.activities@[i]).1.ssrc as u64
                == self.activities@[i].0
    }

    pub fn new() -> (r: Self)
        ensures
            r.wf(),
            r.count() == 0,
            forall|s: u32| #[trigger] r.activity_of(s) is None,
    {
        let r = LrsTracker { activities: Vec::new() };
        proof {
            assert forall|s: u32| #[trigger] r.activity_of(s) is None by {
                crate::kv::lemma_get_absent::<UserActivity>(r.activities@, s as u64);
            }
        }
        r
    }

    /// Register or refresh a speaker's last-spoken time.
    pub fn update_activity(&mut self, ssrc: u32, user_id: u64, now_ms: u64)
        requires
            old(self).wf(),
        ensures
            final(self).wf(),
            final(self).activity_of(ssrc) == Some(
                UserActivity { user_id, ssrc, last_spoken_at: now_ms },
            ),
            forall|s: u32|
                s != ssrc ==> #[trigger] final(self).activity_of(s) == old(self).activity_of(s),
            final(self).count() == if old(self).activity_of(ssrc) is Some {
                old(self).count()
            } else {
                old(self).count() + 1
            },
    {
        let entry = UserActivity { user_id, ssrc, last_spoken_at: now_ms };
        kv_insert(&mut self.activities, ssrc as u64, entry);
        proof {
            crate::kv::lemma_get_index(self.activities@, ssrc as u64);
            assert forall|j: int|
                0 <= j < self.activities@.len() implies (#[trigger] self.activities@[j]).1.ssrc
                as u64 == self.activities@[j].0 by {
                if self.activities@[j].0 == ssrc as u64 {
                    assert(spec_get(self.activities@, ssrc as u64) == Some(
                        self.activities@[j].1,
                    ));
                } else {
                    let k = choose|k: int|
                        0 <= k < old(self).activities@.len() && old(self).activities@[k]
                            == self.activities@[j];
                    assert(old(self).activities@[k].1.ssrc as u64 == old(self).activities@[k].0);
                }
            }
            assert forall|s: u32|
                s != ssrc implies #[trigger] final(self).activity_of(s) == old(self).activity_of(
                s,
            ) by {
                assert(s as u64 != ssrc as u64);
            }
        }
    }

    /// The source id of the speaker silent the longest, if any speaker
    /// is tracked: no tracked speaker spoke earlier.
    pub fn find_least_recently_spoken(&self) -> (r: Option<u32>)
        requires
            self.wf(),
        ensures
            r is None <==> self.count() == 0,
            r matches Some(s) ==> self.activity_of(s) is Some && forall|s2: u32|
                #[trigger] self.activity_of(s2) is Some ==> self.activity_of(
                    s,
                ).unwrap().last_spoken_at <= self.activity_of(s2).unwrap().last_spoken_at,
    {
        let n = self.activities.len();
        if n == 0 {
            return None;
        }
        let mut best: usize = 0;
        let mut i: usize = 1;
        while i < n
            invariant
                n == self.activities@.len(),
                1 <= i <= n,
                best < i,
                forall|j: int|
                    0 <= j < i ==> self.activities@[best as int].1.last_spoken_at <= (
                    #[trigger] self.activities@[j]).1.last_spoken_at,
            decreases n - i,
        {
            if self.activities[i].1.last_spoken_at < self.activities[best].1.last_spoken_at {
                best = i;
            }
            i = i + 1;
        }
        let found = self.activities[best].1;
        proof {
            crate::kv::lemma_get_index(self.activities@, found.ssrc as u64);
            assert(self.activity_of(found.ssrc) == Some(found));
            assert forall|s2: u32|
                #[trigger] self.activity_of(s2) is Some implies self.activity_of(
                found.ssrc,
            ).unwrap().last_spoken_at <= self.activity_of(s2).unwrap().last_spoken_at by {
                crate::kv::lemma_get_index(self.activities@, s2 as u64);
                let j = choose|j: int|
                    0 <= j < self.activities@.len() && (#[trigger] self.activities@[j]).0 == s2
                        as u64;
                assert(self.activity_of(s2) == Some(self.activities@[j].1));
                assert(self.activities@[best as int].1.last_spoken_at
                    <= self.activities@[j].1.last_spoken_at);
            }
        }
        Some(found.ssrc)
    }

    /// Let a speaker in under the session bound: a speaker already
    /// tracked is refreshed; a new speaker joins directly while there is
    /// room, and otherwise the least recently spoken speaker is evicted
    /// first. The evicted source id comes back so its worker can be
    /// cancelled.
    pub fn accept_speaker(
        &mut self,
        ssrc: u32,
        user_id: u64,
        now_ms: u64,
        max_concurrent: usize,
    ) -> (evicted: Option<u32>)
        requires
            old(self).wf(),
        ensures
            final(self).wf(),
            final(self).activity_of(ssrc) == Some(
                UserActivity { user_id, ssrc, last_spoken_at: now_ms },
            ),
            old(self).activity_of(ssrc) is Some || old(self).count() < max_concurrent
                ==> evicted is None,
            evicted matches Some(s) ==> s != ssrc && old(self).activity_of(s) is Some && (
            forall|s2: u32|
                #[trigger] old(self).activity_of(s2) is Some ==> old(self).activity_of(
                    s,
                ).unwrap().last_spoken_at <= old(self).activity_of(s2).unwrap().last_spoken_at)
                && final(self).activity_of(s) is None,
            forall|s2: u32|
                s2 != ssrc && (evicted is None || s2 != evicted.unwrap())
                    ==> #[trigger] final(self).activity_of(s2) == old(self).activity_of(s2),
    {
        match kv_find(&self.activities, ssrc as u64) {
            Some(_) => {
                self.update_activity(ssrc, user_id, now_ms);
                None
            },
            None => {
                if self.activities.len() < max_concurrent {
                    self.update_activity(ssrc, user_id, now_ms);
                    None
                } else {
                    let evicted = self.find_least_recently_spoken();
                    if let Some(s) = evicted {
                        self.remove(s);
                    }
                    self.update_activity(ssrc, user_id, now_ms);
                    evicted
                }
            },
        }
    }

    /// Stop tracking a speaker.
    pub fn remove(&mut self, ssrc: u32)
        requires
            old(self).wf(),
        ensures
            final(self).wf(),
            final(self).activity_of(ssrc) is None,
            forall|s: u32|
                s != ssrc ==> #[trigger] final(self).activity_of(s) == old(self).activity_of(s),
            final(self).count() == if old(self).activity_of(ssrc) is Some {
                (old(self).count() - 1) as nat
            } else {
                old(self).count()
            },
    {
        kv_remove(&mut self.activities, ssrc as u64);
        proof {
            assert forall|j: int|
                0 <= j < self.activities@.len() implies (#[trigger] self.activities@[j]).1.ssrc
                as u64 == self.activities@[j].0 by {
                let k = choose|k: int|
                    0 <= k < old(self).activities@.len() && old(self).activities@[k]
                        == self.activities@[j];
                assert(old(self).activities@[k].1.ssrc as u64 == old(self).activities@[k].0);
            }
            assert forall|s: u32|
                s != ssrc implies #[trigger] final(self).activity_of(s) == old(self).activity_of(
                s,
            ) by {
                assert(s as u64 != ssrc as u64);
            }
        }
    }

    /// Number of tracked speakers.
    pub fn len(&self) -> (r: usize)
        ensures
            r == self.count(),
    {
        self.activities.len()
    }

    /// Whether no speaker is tracked.
    pub fn is_empty(&self) -> (r: bool)
        ensures
            r == (self.count() == 0),
    {
        self.activities.is_empty()
    }
}

} // verus!
