//! Scripted transcription sessions for exercising the pipeline.
//!
//! A mock session replays configured utterances: enough audio triggers
//! speech onset, then a fixed number of growing partial results, the
//! final text, and the speech offset, before the next utterance or the
//! end of the session. Timing is the caller's business; the machine
//! only decides which event comes next.

use vstd::prelude::*;

use crate::stt::SttEvent;

verus! {

/// Partial results emitted per utterance.
pub const NUM_PARTIALS: usize = 3;

/// Audio samples needed before speech is detected.
pub const AUDIO_TRIGGER_THRESHOLD: usize = 320;

/// One scripted utterance.
#[derive(Debug, Clone)]
pub struct MockUtterance {
    pub text: String,
    pub language: String,
    pub confidence_milli: u32,
}

/// Where the session stands within the script.
#[derive(Debug, Clone, Copy, PartialEq, Eq, Structural)]
pub enum MockSttState {
    /// Waiting for enough audio to trigger speech detection.
    WaitingForAudio,
    /// Enough audio arrived; speech onset is next.
    AudioReceived,
    /// Emitting partial results; at the limit, the final text is next.
    Partial(usize),
    /// Speech offset is next.
    SpeechEndReady,
    /// The script is exhausted and the session closed.
    Closed,
}

/// A scripted transcription session.
pub struct MockSttSession {
    utterances: Vec<MockUtterance>,
    /// Whether the session ends after the last utterance instead of
    /// waiting for more audio.
    close_after_all: bool,
    state: MockSttState,
    utterance_index: usize,
    audio_sample_count: usize,
}

impl MockSttSession {
    pub closed spec fn state_spec(self) -> MockSttState {
        self.state
    }

    pub closed spec fn utterance_index_spec(self) -> usize {
        self.utterance_index
    }

    pub closed spec fn utterance_count(self) -> nat {
        self.utterances@.len()
    }

    pub closed spec fn samples_fed(self) -> usize {
        self.audio_sample_count
    }

    /// Whether the session closes once the script is exhausted.
    pub closed spec fn close_after_all_spec(self) -> bool {
        self.close_after_all
    }

    /// The text of the utterance currently being replayed.
    pub closed spec fn current_utterance_text(self) -> Seq<char> {
        self.utterances@[self.utterance_index as int].text@
    }

    /// The script position always points at a real utterance while one
    /// is being replayed, and partial counters stay in range.
    pub closed spec fn wf(self) -> bool {
        &&& (self.state is AudioReceived || self.state is Partial || self.state is SpeechEndReady)
            ==> self.utterance_index < self.utterances@.len()
        &&& (self.state matches MockSttState::Partial(n) ==> n <= NUM_PARTIALS)
    }

    pub fn new(utterances: Vec<MockUtterance>, close_after_all: bool) -> (r: Self)
        ensures
            r.wf(),
            r.state_spec() == MockSttState::WaitingForAudio,
            r.utterance_index_spec() == 0,
            r.utterance_count() == utterances@.len(),
            r.close_after_all_spec() == close_after_all,
    {
        MockSttSession {
            utterances,
            close_after_all,
            state: MockSttState::WaitingForAudio,
            utterance_index: 0,
            audio_sample_count: 0,
        }
    }

    /// Feed audio: once enough has arrived while an utterance is
    /// pending, speech detection triggers.
    pub fn send_audio(&mut self, sample_count: usize)
        requires
            old(self).wf(),
        ensures
            final(self).wf(),
            final(self).state_spec() == if old(self).state_spec() is WaitingForAudio && old(
                self,
            ).utterance_index_spec() < old(self).utterance_count() && old(self).samples_fed()
                + sample_count > AUDIO_TRIGGER_THRESHOLD {
                MockSttState::AudioReceived
            } else {
                old(self).state_spec()
            },
            final(self).utterance_index_spec() == old(self).utterance_index_spec(),
    {
        if matches!(self.state, MockSttState::WaitingForAudio) && self.utterance_index
            < self.utterances.len() {
            self.audio_sample_count = if self.audio_sample_count <= usize::MAX - sample_count {
                self.audio_sample_count + sample_count
            } else {
                usize::MAX
            };
            if self.audio_sample_count > AUDIO_TRIGGER_THRESHOLD {
                self.state = MockSttState::AudioReceived;
            }
            proof {
                if old(self).samples_fed() + sample_count > AUDIO_TRIGGER_THRESHOLD {
                    assert(self.audio_sample_count > AUDIO_TRIGGER_THRESHOLD);
                }
            }
        }
    }

    /// The next event of the script, or nothing while more audio is
    /// awaited or after the session closed.
    ///
    /// Per utterance the order is: speech onset, the partial results in
    /// growing prefixes, the final text, the speech offset.
    pub fn next_event(&mut self) -> (r: Option<SttEvent>)
        requires
            old(self).wf(),
        ensures
            final(self).wf(),
            old(self).state_spec() is WaitingForAudio ==> r is None && final(self).state_spec()
                == old(self).state_spec(),
            old(self).state_spec() is Closed ==> r is None && final(self).state_spec() == old(
                self,
            ).state_spec(),
            old(self).state_spec() is AudioReceived ==> (r matches Some(e) && e is SpeechStart)
                && final(self).state_spec() == MockSttState::Partial(0),
            old(self).state_spec() matches MockSttState::Partial(n) ==> if n < NUM_PARTIALS {
                (r matches Some(e) && e matches SttEvent::Partial { text } && text@ == old(
                    self,
                ).current_utterance_text().take(
                    (n + 1) * old(self).current_utterance_text().len() as int
                        / NUM_PARTIALS as int,
                )) && final(self).state_spec() == MockSttState::Partial((n + 1) as usize)
            } else {
                (r matches Some(e) && e matches SttEvent::Final { text, .. } && text@ == old(
                    self,
                ).current_utterance_text()) && final(self).state_spec()
                    == MockSttState::SpeechEndReady
            },
            old(self).state_spec() is SpeechEndReady ==> (r matches Some(e) && e is SpeechEnd)
                && final(self).utterance_index_spec() == old(self).utterance_index_spec() + 1
                && final(self).state_spec() == (
            if old(self).utterance_index_spec() + 1 < old(self).utterance_count() {
                MockSttState::WaitingForAudio
            } else if old(self).close_after_all_spec() {
                MockSttState::Closed
            } else {
                MockSttState::WaitingForAudio
            }),
    {
        match self.state {
            MockSttState::WaitingForAudio => None,
            MockSttState::Closed => None,
            MockSttState::AudioReceived => {
                let ts = self.timestamp_ms();
                self.state = MockSttState::Partial(0);
                Some(SttEvent::SpeechStart { timestamp_ms: ts })
            },
            MockSttState::Partial(n) => {
                let utt = &self.utterances[self.utterance_index];
                if n < NUM_PARTIALS {
                    let len = utt.text.as_str().unicode_len();
                    proof {
                        assert(((n + 1) as int) * (len as int) / (NUM_PARTIALS as int) <= len
                            as int) by (nonlinear_arith)
                            requires
                                0 < NUM_PARTIALS as int,
                                (n + 1) as int <= NUM_PARTIALS as int,
                                len as int >= 0,
                        ;
                    }
                    let end = (((n + 1) as u128 * len as u128) / NUM_PARTIALS as u128) as usize;
                    let partial_text = utt.text.as_str().substring_char(0, end).to_owned();
                    self.state = MockSttState::Partial(n + 1);
                    Some(SttEvent::Partial { text: partial_text })
                } else {
                    let text = utt.text.clone();
                    let language = utt.language.clone();
                    let confidence_milli = utt.confidence_milli;
                    let duration_ms = self.utterance_duration_ms();
                    self.state = MockSttState::SpeechEndReady;
                    Some(SttEvent::Final { text, language, confidence_milli, duration_ms })
                }
            },
            MockSttState::SpeechEndReady => {
                let duration_ms = self.utterance_duration_ms();
                let ts = self.timestamp_ms();
                let count = self.utterances.len();
                proof {
                    assert(self.utterance_index < count);
                }
                // Step to the next utterance, or close out the script.
                self.utterance_index = self.utterance_index + 1;
                self.audio_sample_count = 0;
                if self.utterance_index < count {
                    self.state = MockSttState::WaitingForAudio;
                } else if self.close_after_all {
                    self.state = MockSttState::Closed;
                } else {
                    self.state = MockSttState::WaitingForAudio;
                }
                Some(SttEvent::SpeechEnd { timestamp_ms: ts, duration_ms })
            },
        }
    }

    /// Close the session; no further events come.
    pub fn close(&mut self)
        ensures
            final(self).wf(),
            final(self).state_spec() == MockSttState::Closed,
    {
        self.state = MockSttState::Closed;
    }

    /// A nominal timestamp from the audio received so far, at the
    /// transcription feed rate.
    fn timestamp_ms(&self) -> u64 {
        (self.audio_sample_count as u64).wrapping_mul(1000) / 16000
    }

    /// A nominal utterance duration from its character count.
    fn utterance_duration_ms(&self) -> u64
        requires
            self.wf(),
            self.state_spec() is Partial || self.state_spec() is SpeechEndReady,
    {
        let utt = &self.utterances[self.utterance_index];
        let chars = utt.text.as_str().unicode_len();
        (chars as u64).wrapping_mul(100)
    }
}

} // verus!
