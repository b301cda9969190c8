//! Per-user pipeline worker decisions.
//!
//! The worker's task waits on three sources at once — cancellation, the
//! idle clock, incoming audio — and the runtime performs the waits. What
//! to do when one fires, how transcription events drive the exchange,
//! and which transcript entry an exchange leaves behind are decided
//! here.

use vstd::prelude::*;

use crate::stt::SttEvent;
use crate::text::{non_ws, spec_trim, str_trim};
use crate::transcript::TranscriptEntry;

verus! {

/// Why a worker's loop ended.
#[derive(Debug, Clone, Copy, PartialEq, Eq, Structural)]
pub enum WorkerExitReason {
    /// The audio input channel was closed.
    ChannelClosed,
    /// No speech arrived for the configured duration.
    IdleTimeout,
    /// Cancelled from outside.
    Cancelled,
}

/// When the idle clock fires: never for a zero timeout, which means the
/// worker waits for speech indefinitely.
pub fn idle_deadline_ms(last_speech_at_ms: u64, idle_timeout_sec: u64) -> (r: Option<u64>)
    ensures
        r is None <==> idle_timeout_sec == 0,
        r matches Some(d) ==> d == if last_speech_at_ms + idle_timeout_sec * 1000 <= u64::MAX {
            last_speech_at_ms + idle_timeout_sec * 1000
        } else {
            u64::MAX as int
        },
{
    if idle_timeout_sec == 0 {
        return None;
    }
    let timeout_ms = if idle_timeout_sec <= u64::MAX / 1000 {
        idle_timeout_sec * 1000
    } else {
        u64::MAX
    };
    proof {
        if idle_timeout_sec > u64::MAX / 1000 {
            assert(idle_timeout_sec * 1000 > u64::MAX) by (nonlinear_arith)
                requires
                    idle_timeout_sec > u64::MAX / 1000,
            ;
        }
    }
    if last_speech_at_ms <= u64::MAX - timeout_ms {
        Some(last_speech_at_ms + timeout_ms)
    } else {
        Some(u64::MAX)
    }
}

/// What the worker's wait came back with.
#[derive(Debug, Clone, Copy, PartialEq, Eq, Structural)]
pub enum WorkerWakeup {
    /// The cancellation token fired.
    Cancelled,
    /// The idle deadline passed.
    IdleElapsed,
    /// An audio chunk arrived.
    Audio,
    /// The audio channel closed.
    AudioClosed,
}

/// What the worker does next.
#[derive(Debug, Clone, Copy, PartialEq, Eq, Structural)]
pub enum WorkerStep {
    /// Close the transcription session and exit for this reason.
    Exit(WorkerExitReason),
    /// Forward the chunk to transcription and drain its events.
    ProcessAudio,
}

/// Decide one iteration of the worker loop. Cancellation outranks the
/// idle clock, which outranks audio.
pub fn decide_step(wakeup: WorkerWakeup) -> (r: WorkerStep)
    ensures
        wakeup is Cancelled ==> r == WorkerStep::Exit(WorkerExitReason::Cancelled),
        wakeup is IdleElapsed ==> r == WorkerStep::Exit(WorkerExitReason::IdleTimeout),
        wakeup is AudioClosed ==> r == WorkerStep::Exit(WorkerExitReason::ChannelClosed),
        wakeup is Audio ==> r == WorkerStep::ProcessAudio,
{
    match wakeup {
        WorkerWakeup::Cancelled => WorkerStep::Exit(WorkerExitReason::Cancelled),
        WorkerWakeup::IdleElapsed => WorkerStep::Exit(WorkerExitReason::IdleTimeout),
        WorkerWakeup::AudioClosed => WorkerStep::Exit(WorkerExitReason::ChannelClosed),
        WorkerWakeup::Audio => WorkerStep::ProcessAudio,
    }
}

/// What a drained transcription event asks for.
#[derive(Debug, Clone, PartialEq, Eq)]
pub enum SttEventAction {
    /// Playback is running and the user spoke: signal barge-in.
    SignalBargeIn,
    /// Nothing to do beyond what the clock already recorded.
    Ignore,
    /// A final utterance: run an exchange on this text.
    ProcessText { text: String },
}

/// Handle one transcription event: speech onset during playback raises
/// the barge-in signal; a final, non-blank utterance starts an exchange;
/// speech activity resets the idle clock.
pub fn handle_stt_event(
    event: SttEvent,
    is_playing: bool,
    now_ms: u64,
    last_speech_at_ms: &mut u64,
) -> (r: SttEventAction)
    ensures
        event is SpeechStart ==> *final(last_speech_at_ms) == now_ms && r == if is_playing {
            SttEventAction::SignalBargeIn
        } else {
            SttEventAction::Ignore
        },
        event is Partial ==> *final(last_speech_at_ms) == *old(last_speech_at_ms) && r
            == SttEventAction::Ignore,
        event matches SttEvent::Final { text, .. } ==> *final(last_speech_at_ms) == now_ms && r
            == if non_ws(text@) == Seq::<char>::empty() {
            SttEventAction::Ignore
        } else {
            SttEventAction::ProcessText { text }
        },
        event is SpeechEnd ==> *final(last_speech_at_ms) == now_ms && r == SttEventAction::Ignore,
{
    match event {
        SttEvent::SpeechStart { .. } => {
            *last_speech_at_ms = now_ms;
            if is_playing {
                SttEventAction::SignalBargeIn
            } else {
                SttEventAction::Ignore
            }
        },
        SttEvent::Partial { .. } => SttEventAction::Ignore,
        SttEvent::Final { text, .. } => {
            *last_speech_at_ms = now_ms;
            let trimmed = str_trim(text.as_str());
            if trimmed.as_str().is_empty() {
                proof {
                    crate::text::lemma_trim_props(text@);
                    lemma_blank_text(text@);
                }
                SttEventAction::Ignore
            } else {
                proof {
                    crate::text::lemma_trim_props(text@);
                    lemma_present_text(text@);
                }
                SttEventAction::ProcessText { text }
            }
        },
        SttEvent::SpeechEnd { .. } => {
            *last_speech_at_ms = now_ms;
            SttEventAction::Ignore
        },
    }
}

proof fn lemma_blank_text(t: Seq<char>)
    requires
        spec_trim(t).len() == 0,
    ensures
        non_ws(t) == Seq::<char>::empty(),
{
    crate::text::lemma_trim_empty_non_ws(t);
}

proof fn lemma_present_text(t: Seq<char>)
    requires
        spec_trim(t).len() > 0,
        !crate::text::is_ws_char(spec_trim(t)[0]),
    ensures
        non_ws(t) != Seq::<char>::empty(),
{
    crate::text::lemma_non_ws_trim(t);
    crate::text::lemma_non_ws_nonempty(spec_trim(t));
}

/// How one exchange with the agent ended.
#[derive(Debug, Clone, Copy, PartialEq, Eq, Structural)]
pub enum ResponseOutcome {
    /// Barge-in before the agent answered: abort silently.
    CancelledBeforeGeneration,
    /// Barge-in after the answer, before synthesis finished.
    CancelledBeforeSynthesis,
    /// Barge-in after synthesis, before the audio went out.
    CancelledBeforePlayback,
    /// The response was delivered.
    Completed,
}

/// The transcript entry one exchange leaves behind: none for a silent
/// abort, an interruption record with the played prefix for a barge-in,
/// the full response when it completed.
pub fn response_transcript(
    outcome: ResponseOutcome,
    bot_name: &str,
    response_text: &str,
    played_text: &str,
) -> (r: Option<TranscriptEntry>)
    ensures
        outcome is CancelledBeforeGeneration ==> r is None,
        outcome is CancelledBeforeSynthesis || outcome is CancelledBeforePlayback ==> (r
            matches Some(e) && e matches TranscriptEntry::BotResponseInterrupted {
            bot_name: b,
            played_text: p,
        } && b@ == bot_name@ && p@ == played_text@),
        outcome is Completed ==> (r matches Some(e) && e matches TranscriptEntry::BotResponse {
            bot_name: b,
            text,
        } && b@ == bot_name@ && text@ == response_text@),
{
    match outcome {
        ResponseOutcome::CancelledBeforeGeneration => None,
        ResponseOutcome::CancelledBeforeSynthesis | ResponseOutcome::CancelledBeforePlayback => {
            Some(
                TranscriptEntry::BotResponseInterrupted {
                    bot_name: bot_name.to_owned(),
                    played_text: played_text.to_owned(),
                },
            )
        },
        ResponseOutcome::Completed => {
            Some(
                TranscriptEntry::BotResponse {
                    bot_name: bot_name.to_owned(),
                    text: response_text.to_owned(),
                },
            )
        },
    }
}


} // verus!
