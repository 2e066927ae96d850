//! Supervised sessions and what is seen of them.

use vstd::prelude::*;

verus! {

/// The state of a supervised session.
#[derive(Debug, Clone, Copy, PartialEq, Eq, Structural)]
pub enum SupervisorState {
    /// Working on its run.
    Working,
    /// Asked to hand off.
    HandoffRequested,
    /// Its handoff is validated.
    HandoffWritten,
    /// Asked to park.
    ParkRequested,
    /// Replaced by its successor.
    Killed,
    /// Parked; a later generation resumes the work.
    Parked,
    /// Found dead.
    Dead,
}

impl SupervisorState {
    /// No state follows.
    pub open spec fn terminal(self) -> bool {
        self is Killed || self is Parked || self is Dead
    }

    /// Whether no state follows.
    pub fn is_terminal(self) -> (r: bool)
        ensures
            r == self.terminal(),
    {
        matches!(self, SupervisorState::Killed | SupervisorState::Parked | SupervisorState::Dead)
    }
}

/// The kind of instruction that a session has in flight.
#[derive(Debug, Clone, Copy, PartialEq, Eq, Structural)]
pub enum InstructionKind {
    /// A handoff.
    Handoff,
    /// A park.
    Park,
}

/// One supervised session at one moment.
#[derive(Debug)]
pub struct SessionSnapshot {
    /// The session.
    pub session_id: u32,
    /// The project it works in.
    pub project: String,
    /// The name of its run.
    pub epic: String,
    /// Its generation within the run.
    pub generation: u32,
    /// Its state.
    pub state: SupervisorState,
    /// The state before, unless the session was registered just now.
    pub previous_state: Option<SupervisorState>,
    /// The instruction that is in flight for it.
    pub in_flight: Option<InstructionKind>,
}

impl SessionSnapshot {
    /// The run that the session belongs to.
    pub open spec fn run(&self) -> (Seq<char>, Seq<char>) {
        (self.project@, self.epic@)
    }

    /// Whether the session belongs to the run `epic` of `project`.
    pub fn is_of(&self, project: &str, epic: &str) -> (r: bool)
        ensures
            r == (self.run() == (project@, epic@)),
    {
        crate::text::same(self.project.as_str(), project) && crate::text::same(
            self.epic.as_str(),
            epic,
        )
    }
}

/// What is observed of a session, as far as the supervision reads it.
#[derive(Debug)]
pub enum AgentEvent {
    /// The session ended its turn (`stop`) or went away (any other reason).
    SessionEnded {
        /// The session.
        session_id: u32,
        /// Why it ended.
        reason: String,
    },
    /// A session started.
    SessionStarted {
        /// The session.
        session_id: u32,
    },
    /// The agent called a tool.
    ToolUseStarted {
        /// The session.
        session_id: u32,
    },
    /// A prompt was submitted.
    UserMessage {
        /// The session.
        session_id: u32,
    },
    /// The agent replied.
    AssistantMessage {
        /// The session.
        session_id: u32,
        /// The reply.
        text: String,
    },
    /// Anything else.
    Other,
}

} // verus!
