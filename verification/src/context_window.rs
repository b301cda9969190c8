//! Batching of utterances from several speakers into one labelled block.
//!
//! When enabled, confirmed utterances collect in a window that opens on
//! the first one; once the configured time has passed, the whole batch
//! is flushed as a single speaker-labelled prompt block.

use vstd::prelude::*;

verus! {

/// A recognised utterance with its speaker identity.
#[derive(Debug, Clone)]
pub struct LabeledUtterance {
    pub user_id: u64,
    pub username: String,
    pub text: String,
    pub timestamp_ms: u64,
}

/// The line the flush writes for one utterance.
pub open spec fn spec_label(u: LabeledUtterance) -> Seq<char> {
    u.username@ + "\u{3055}\u{3093}: "@ + u.text@
}

/// The flushed block: one labelled line per utterance, in order.
pub open spec fn spec_labelled_block(us: Seq<LabeledUtterance>) -> Seq<char>
    decreases us.len(),
{
    if us.len() == 0 {
        Seq::empty()
    } else if us.len() == 1 {
        spec_label(us[0])
    } else {
        spec_labelled_block(us.drop_last()) + seq!['\n'] + spec_label(us.last())
    }
}

/// Buffers utterances within a time window that opens on first push.
pub struct ContextWindowBuffer {
    utterances: Vec<LabeledUtterance>,
    window_start_ms: Option<u64>,
    window_duration_ms: u64,
}

impl ContextWindowBuffer {
    /// The buffered utterances, oldest first.
    pub closed spec fn utterances_view(self) -> Seq<LabeledUtterance> {
        self.utterances@
    }

    /// When the window opened, if it has.
    pub closed spec fn window_start_spec(self) -> Option<u64> {
        self.window_start_ms
    }

    /// The configured window length in milliseconds.
    pub closed spec fn duration_spec(self) -> u64 {
        self.window_duration_ms
    }

    /// The window is open exactly while something is buffered.
    pub closed spec fn wf(self) -> bool {
        self.window_start_ms is Some <==> self.utterances@.len() > 0
    }

    pub fn new(window_duration_ms: u64) -> (r: Self)
        ensures
            r.wf(),
            r.duration_spec() == window_duration_ms,
            r.utterances_view() == Seq::<LabeledUtterance>::empty(),
            r.window_start_spec() is None,
    {
        ContextWindowBuffer {
            utterances: Vec::new(),
            window_start_ms: None,
            window_duration_ms,
        }
    }

    /// Add a confirmed utterance; the first one opens the window.
    pub fn push(&mut self, utterance: LabeledUtterance, now_ms: u64)
        requires
            old(self).wf(),
        ensures
            final(self).wf(),
            final(self).utterances_view() == old(self).utterances_view().push(utterance),
            final(self).duration_spec() == old(self).duration_spec(),
            final(self).window_start_spec() == if old(self).window_start_spec() is Some {
                old(self).window_start_spec()
            } else {
                Some(now_ms)
            },
    {
        if self.window_start_ms.is_none() {
            self.window_start_ms = Some(now_ms);
        }
        self.utterances.push(utterance);
    }

    /// Whether the window has been open for its full duration.
    pub fn is_ready(&self, now_ms: u64) -> (r: bool)
        ensures
            r == match self.window_start_spec() {
                Some(start) => now_ms >= start && now_ms - start >= self.duration_spec(),
                None => false,
            },
    {
        match self.window_start_ms {
            Some(start) => now_ms >= start && now_ms - start >= self.window_duration_ms,
            None => false,
        }
    }

    /// Drain the buffer into one speaker-labelled block, or nothing if
    /// the buffer is empty; the window closes either way.
    pub fn flush(&mut self) -> (r: Option<String>)
        requires
            old(self).wf(),
        ensures
            final(self).wf(),
            final(self).duration_spec() == old(self).duration_spec(),
            final(self).utterances_view() == Seq::<LabeledUtterance>::empty(),
            final(self).window_start_spec() is None,
            r is None <==> old(self).utterances_view().len() == 0,
            r matches Some(text) ==> text@ == spec_labelled_block(old(self).utterances_view()),
    {
        if self.utterances.is_empty() {
            return None;
        }
        let n = self.utterances.len();
        let mut text = String::new();
        let mut i: usize = 0;
        while i < n
            invariant
                n == self.utterances@.len(),
                0 < n,
                i <= n,
                text@ == spec_labelled_block(self.utterances@.take(i as int)),
            decreases n - i,
        {
            if i > 0 {
                text.append("\n");
                proof {
                    reveal_strlit("\n");
                }
            }
            let u = &self.utterances[i];
            text.append(u.username.as_str());
            text.append("\u{3055}\u{3093}: ");
            text.append(u.text.as_str());
            proof {
                let taken = self.utterances@.take(i + 1);
                assert(taken.drop_last() =~= self.utterances@.take(i as int));
                assert(taken.last() == self.utterances@[i as int]);
                if i == 0 {
                    assert(text@ =~= spec_labelled_block(taken));
                } else {
                    assert(text@ =~= spec_labelled_block(taken.drop_last()) + seq!['\n']
                        + spec_label(taken.last()));
                }
            }
            i = i + 1;
        }
        self.utterances.clear();
        self.window_start_ms = None;
        proof {
            assert(old(self).utterances@.take(n as int) =~= old(self).utterances@);
        }
        Some(text)
    }
}

} // verus!
