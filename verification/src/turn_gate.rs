//! Process-wide single-permit gate that serialises agent turns.
//!
//! Whatever wants an agent turn — a voice worker, a text session, a
//! heartbeat — must hold the one permit; the state here decides who gets
//! it, while any waiting happens outside.

use vstd::prelude::*;

verus! {

/// A single-permit gate: at most one agent turn in flight.
pub struct TurnGate {
    busy: bool,
}

impl TurnGate {
    /// Whether the permit is currently held.
    pub closed spec fn busy_spec(self) -> bool {
        self.busy
    }

    pub fn new() -> (r: Self)
        ensures
            !r.busy_spec(),
    {
        TurnGate { busy: false }
    }

    /// Take the permit if it is free.
    pub fn try_acquire(&mut self) -> (granted: bool)
        ensures
            granted <==> !old(self).busy_spec(),
            final(self).busy_spec(),
    {
        if self.busy {
            false
        } else {
            self.busy = true;
            true
        }
    }

    /// Give the permit back.
    pub fn release(&mut self)
        ensures
            !final(self).busy_spec(),
    {
        self.busy = false;
    }

    /// Whether an agent turn is currently in progress.
    pub fn is_busy(&self) -> (r: bool)
        ensures
            r == self.busy_spec(),
    {
        self.busy
    }
}

impl Default for TurnGate {
    fn default() -> (r: Self)
        ensures
            !r.busy_spec(),
    {
        TurnGate::new()
    }
}

} // verus!
