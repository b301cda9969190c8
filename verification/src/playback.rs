//! Ordered playback of out-of-order synthesis results.
//!
//! Parallel synthesis finishes in arbitrary order; the queue buffers
//! early arrivals and releases segments strictly by index. Whatever
//! arrives, the indices it has released always form the contiguous
//! prefix 0, 1, 2, … with no gap and no repetition.

use vstd::prelude::*;

use crate::kv::{kv_insert, kv_remove, spec_get, unique_keys};
use crate::tts_pipeline::TtsSegment;

verus! {

/// Reorders segments by index before playback.
pub struct SequencedPlaybackQueue {
    next_index: usize,
    buffer: Vec<(u64, TtsSegment)>,
    total_segments: Option<usize>,
    /// Indices released so far, in release order.
    emitted: Ghost<Seq<usize>>,
}

impl SequencedPlaybackQueue {
    /// The next index the queue will release.
    pub closed spec fn next_index_spec(self) -> usize {
        self.next_index
    }

    /// The segment buffered ahead for index `i`, if any.
    pub closed spec fn buffered_at(self, i: usize) -> Option<TtsSegment> {
        spec_get(self.buffer@, i as u64)
    }

    /// How many segments wait in the buffer.
    pub closed spec fn buffered_count(self) -> nat {
        self.buffer@.len()
    }

    /// The declared total number of segments, once known.
    pub closed spec fn total_spec(self) -> Option<usize> {
        self.total_segments
    }

    /// Indices released so far, in release order.
    pub closed spec fn emitted_indices(self) -> Seq<usize> {
        self.emitted@
    }

    /// Buffered entries carry their own index as key, and the released
    /// indices are exactly 0 up to the next index, in order.
    pub closed spec fn wf(self) -> bool {
        &&& unique_keys(self.buffer@)
        &&& forall|j: int|
            0 <= j < self.buffer@.len() ==> (#[trigger] self.buffer@[j]).1.index as u64
                == self.buffer@[j].0
        &&& self.emitted@ == Seq::new(self.next_index as nat, |i: int| i as usize)
    }

    /// Room to accept one more segment without index overflow.
    pub open spec fn can_submit(self) -> bool {
        self.next_index_spec() + self.buffered_count() + 1 < usize::MAX
    }

    pub fn new() -> (r: Self)
        ensures
            r.wf(),
            r.next_index_spec() == 0,
            r.buffered_count() == 0,
            forall|i: usize| #[trigger] r.buffered_at(i) is None,
            r.total_spec() is None,
            r.emitted_indices() == Seq::<usize>::empty(),
            r.can_submit(),
    {
        let r = SequencedPlaybackQueue {
            next_index: 0,
            buffer: Vec::new(),
            total_segments: None,
            emitted: Ghost(Seq::empty()),
        };
        proof {
            assert(r.emitted@ =~= Seq::new(0, |i: int| i as usize));
            assert forall|i: usize| #[trigger] r.buffered_at(i) is None by {
                crate::kv::lemma_get_absent::<TtsSegment>(r.buffer@, i as u64);
            }
        }
        r
    }

    /// The released indices are the contiguous prefix of the naturals:
    /// index `i` is never released before every index below it.
    pub proof fn lemma_released_prefix(self)
        requires
            self.wf(),
        ensures
            self.emitted_indices().len() == self.next_index_spec(),
            forall|i: int|
                0 <= i < self.emitted_indices().len() ==> #[trigger] self.emitted_indices()[i]
                    == i,
    {
    }

    /// Declare how many segments the response has in total.
    pub fn set_total(&mut self, total: usize)
        requires
            old(self).wf(),
        ensures
            final(self).wf(),
            final(self).total_spec() == Some(total),
            final(self).next_index_spec() == old(self).next_index_spec(),
            final(self).emitted_indices() == old(self).emitted_indices(),
            forall|i: usize| #[trigger] final(self).buffered_at(i) == old(self).buffered_at(i),
            final(self).buffered_count() == old(self).buffered_count(),
    {
        self.total_segments = Some(total);
    }

    /// Whether every declared segment has been released.
    pub fn is_complete(&self) -> (r: bool)
        ensures
            r == match self.total_spec() {
                Some(t) => self.next_index_spec() >= t,
                None => false,
            },
    {
        match self.total_segments {
            Some(t) => self.next_index >= t,
            None => false,
        }
    }

    /// Hand one segment in; out come the segments now ready to play, in
    /// index order: nothing if its index is still ahead, otherwise the
    /// segment itself and every consecutively buffered successor.
    pub fn submit(&mut self, segment: TtsSegment) -> (out: Vec<TtsSegment>)
        requires
            old(self).wf(),
            old(self).can_submit(),
        ensures
            final(self).wf(),
            final(self).total_spec() == old(self).total_spec(),
            segment.index != old(self).next_index_spec() ==> {
                &&& out@.len() == 0
                &&& final(self).next_index_spec() == old(self).next_index_spec()
                &&& final(self).emitted_indices() == old(self).emitted_indices()
                &&& final(self).buffered_at(segment.index) == Some(segment)
                &&& final(self).buffered_count() == old(self).buffered_count() + (
                if old(self).buffered_at(segment.index) is Some {
                    0int
                } else {
                    1int
                })
                &&& forall|i: usize|
                    i != segment.index ==> #[trigger] final(self).buffered_at(i) == old(
                        self,
                    ).buffered_at(i)
            },
            segment.index == old(self).next_index_spec() ==> {
                &&& out@.len() >= 1
                &&& out@[0] == segment
                &&& forall|i: int|
                    0 <= i < out@.len() ==> (#[trigger] out@[i]).index == old(
                        self,
                    ).next_index_spec() + i
                &&& forall|i: int|
                    1 <= i < out@.len() ==> old(self).buffered_at(
                        (#[trigger] out@[i]).index,
                    ) == Some(out@[i])
                &&& final(self).next_index_spec() == old(self).next_index_spec() + out@.len()
                &&& final(self).buffered_count() == old(self).buffered_count() - (out@.len() - 1)
                &&& final(self).emitted_indices() == old(self).emitted_indices() + out@.map_values(
                    |s: TtsSegment| s.index,
                )
                &&& final(self).buffered_at(final(self).next_index_spec()) is None
                &&& forall|i: usize|
                    !(old(self).next_index_spec() < i && i < final(self).next_index_spec())
                        ==> #[trigger] final(self).buffered_at(i) == old(self).buffered_at(i)
            },
    {
        let mut out: Vec<TtsSegment> = Vec::new();
        if segment.index != self.next_index {
            let ghost segv = segment;
            kv_insert(&mut self.buffer, segment.index as u64, segment);
            proof {
                crate::kv::lemma_get_index(self.buffer@, segv.index as u64);
                assert forall|j: int|
                    0 <= j < self.buffer@.len() implies (#[trigger] self.buffer@[j]).1.index
                    as u64 == self.buffer@[j].0 by {
                    if self.buffer@[j].0 == segv.index as u64 {
                        assert(spec_get(self.buffer@, segv.index as u64) == Some(
                            self.buffer@[j].1,
                        ));
                    } else {
                        let k = choose|k: int|
                            0 <= k < old(self).buffer@.len() && old(self).buffer@[k]
                                == self.buffer@[j];
                        assert(old(self).buffer@[k].1.index as u64 == old(self).buffer@[k].0);
                    }
                }
            }
            return out;
        }
        let ghost base = *self;
        out.push(segment);
        self.next_index = self.next_index + 1;
        proof {
            self.emitted@ = self.emitted@.push(base.next_index);
            assert(self.emitted@ =~= Seq::new(self.next_index as nat, |i: int| i as usize));
            assert(self.emitted@ =~= base.emitted@ + out@.map_values(|s: TtsSegment| s.index));
        }
        let mut draining = true;
        while draining
            invariant
                self.wf(),
                self.total_segments == base.total_segments,
                out@.len() >= 1,
                out@[0] == segment,
                out@[0].index == base.next_index,
                self.next_index == base.next_index + out@.len(),
                self.buffer@.len() == base.buffer@.len() - (out@.len() - 1),
                self.next_index + self.buffer@.len() <= base.next_index + base.buffer@.len() + 1,
                base.next_index + base.buffer@.len() + 1 < usize::MAX,
                forall|i: int|
                    0 <= i < out@.len() ==> (#[trigger] out@[i]).index == base.next_index + i,
                forall|i: int|
                    1 <= i < out@.len() ==> spec_get(base.buffer@, (#[trigger] out@[i]).index as u64)
                        == Some(out@[i]),
                forall|i: usize|
                    !(base.next_index < i && i < self.next_index) ==> #[trigger] spec_get(
                        self.buffer@,
                        i as u64,
                    ) == spec_get(base.buffer@, i as u64),
                self.emitted@ == base.emitted@ + out@.map_values(|s: TtsSegment| s.index),
                !draining ==> spec_get(self.buffer@, self.next_index as u64) is None,
            decreases self.buffer@.len() + if draining { 1int } else { 0int },
        {
            let ghost pre = *self;
            match kv_remove(&mut self.buffer, self.next_index as u64) {
                Some(next_seg) => {
                    let ghost out0 = out@;
                    out.push(next_seg);
                    self.next_index = self.next_index + 1;
                    proof {
                        let f = |s: TtsSegment| s.index;
                        crate::kv::lemma_get_index(pre.buffer@, pre.next_index as u64);
                        assert(next_seg.index as u64 == pre.next_index as u64);
                        assert(next_seg.index == pre.next_index);
                        self.emitted@ = self.emitted@.push(next_seg.index);
                        assert(self.emitted@ =~= Seq::new(
                            self.next_index as nat,
                            |i: int| i as usize,
                        ));
                        assert(out@.map_values(f) =~= out0.map_values(f).push(next_seg.index));
                        assert(self.emitted@ =~= base.emitted@ + out@.map_values(f));
                        assert(spec_get(base.buffer@, next_seg.index as u64) == Some(next_seg));
                        assert forall|j: int|
                            0 <= j < self.buffer@.len() implies (#[trigger] self.buffer@[j]).1.index
                            as u64 == self.buffer@[j].0 by {
                            let k = choose|k: int|
                                0 <= k < pre.buffer@.len() && pre.buffer@[k] == self.buffer@[j];
                            assert(pre.buffer@[k].1.index as u64 == pre.buffer@[k].0);
                        }
                        assert forall|i: usize|
                            !(base.next_index < i && i < self.next_index) implies #[trigger]
                        spec_get(self.buffer@, i as u64) == spec_get(base.buffer@, i as u64) by {
                            if i as u64 != pre.next_index as u64 {
                                assert(spec_get(self.buffer@, i as u64) == spec_get(
                                    pre.buffer@,
                                    i as u64,
                                ));
                            } else {
                                assert(i == pre.next_index);
                            }
                        }
                    }
                },
                None => {
                    draining = false;
                },
            }
        }
        proof {
            assert(final(self).buffered_at(final(self).next_index_spec()) is None);
        }
        out
    }

    /// Clear everything for a new response.
    pub fn reset(&mut self)
        ensures
            final(self).wf(),
            final(self).next_index_spec() == 0,
            final(self).buffered_count() == 0,
            forall|i: usize| #[trigger] final(self).buffered_at(i) is None,
            final(self).total_spec() is None,
            final(self).emitted_indices() == Seq::<usize>::empty(),
            final(self).can_submit(),
    {
        self.next_index = 0;
        self.buffer.clear();
        self.total_segments = None;
        proof {
            self.emitted@ = Seq::empty();
            assert(self.emitted@ =~= Seq::new(0, |i: int| i as usize));
            assert forall|i: usize| #[trigger] final(self).buffered_at(i) is None by {
                crate::kv::lemma_get_absent::<TtsSegment>(self.buffer@, i as u64);
            }
        }
    }
}

} // verus!
