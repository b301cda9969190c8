//! Labelled conversation events handed to an external observer.

use vstd::prelude::*;

verus! {

/// One entry of the conversation transcript.
#[derive(Debug, Clone, PartialEq, Eq)]
pub enum TranscriptEntry {
    /// A user's recognised utterance.
    UserSpeech { user_id: u64, user_name: String, text: String },
    /// A response that was fully delivered.
    BotResponse { bot_name: String, text: String },
    /// A response cut short by barge-in, with what had been played.
    BotResponseInterrupted { bot_name: String, played_text: String },
}

} // verus!
