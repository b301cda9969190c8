//! Bridge from voice workers to the conversation agent.
//!
//! The agent itself is an external collaborator; the pipeline only needs
//! a way to hand a user's text in and take a response back.

use vstd::prelude::*;

verus! {

/// The agent call failed; the response is abandoned.
#[derive(Debug, Clone, Copy, PartialEq, Eq, Structural)]
pub enum AgentError {
    Failed,
}

/// What the pipeline asks of the conversation agent.
pub trait AgentBridge {
    /// Generate a text response for a voice user.
    fn generate(&self, user_id: u64, text: &str) -> Result<String, AgentError>;

    /// Reset the conversation context for a user.
    fn reset_context(&self, user_id: u64) -> Result<(), AgentError>;
}

/// An agent that echoes the input back, for exercising the pipeline.
pub struct MockAgentBridge;

impl MockAgentBridge {
    pub fn new() -> (r: Self) {
        MockAgentBridge
    }

    /// The echoed response for `text`.
    pub fn echo(text: &str) -> (r: String)
        ensures
            r@ == "echo: "@ + text@,
    {
        let mut r = "echo: ".to_owned();
        r.append(text);
        r
    }
}

impl AgentBridge for MockAgentBridge {
    fn generate(&self, _user_id: u64, text: &str) -> (r: Result<String, AgentError>)
        ensures
            r matches Ok(s) && s@ == "echo: "@ + text@,
    {
        Ok(Self::echo(text))
    }

    fn reset_context(&self, _user_id: u64) -> Result<(), AgentError> {
        Ok(())
    }
}

} // verus!
