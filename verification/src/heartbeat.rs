//! Tracking of the last heartbeat run for status display.

use vstd::prelude::*;

verus! {

/// How a heartbeat run ended.
#[derive(Debug, Clone, Copy, PartialEq, Eq, Structural)]
pub enum HeartbeatStatus {
    /// The heartbeat ran and sent a response.
    Sent,
    /// The heartbeat ran but nothing needed attention.
    NoAction,
    /// The heartbeat was skipped.
    Skipped,
    /// The heartbeat failed with an error.
    Failed,
}

/// One recorded heartbeat run.
#[derive(Debug, Clone)]
pub struct HeartbeatEvent {
    /// Timestamp in milliseconds.
    pub ts: u64,
    /// How the run ended.
    pub status: HeartbeatStatus,
    /// How long the run took, in milliseconds.
    pub duration_ms: u64,
    /// Start of the response, if one was sent.
    pub preview: Option<String>,
    /// Why the run was skipped or failed.
    pub reason: Option<String>,
}

/// Keeps the most recent heartbeat event for observers.
pub struct HeartbeatLog {
    last: Option<HeartbeatEvent>,
}

impl HeartbeatLog {
    /// The most recently recorded event.
    pub closed spec fn last_spec(self) -> Option<HeartbeatEvent> {
        self.last
    }

    pub fn new() -> (r: Self)
        ensures
            r.last_spec() is None,
    {
        HeartbeatLog { last: None }
    }

    /// Record a heartbeat event, replacing the previous one.
    pub fn emit_heartbeat_event(&mut self, event: HeartbeatEvent)
        ensures
            final(self).last_spec() == Some(event),
    {
        self.last = Some(event);
    }

    /// The last heartbeat event, if any was recorded.
    pub fn get_last_heartbeat_event(&self) -> (r: Option<&HeartbeatEvent>)
        ensures
            match r {
                Some(e) => self.last_spec() == Some(*e),
                None => self.last_spec() is None,
            },
    {
        self.last.as_ref()
    }
}

/// Relies on std's system clock: milliseconds since the Unix epoch, or
/// zero if the clock reads before it.
#[verifier::external_body]
pub fn now_ms() -> u64 {
    std::time::SystemTime::now().duration_since(std::time::UNIX_EPOCH).map(
        |d| d.as_millis() as u64,
    ).unwrap_or(0)
}

} // verus!
