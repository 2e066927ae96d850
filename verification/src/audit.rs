//! Rows of the audit trail.

use vstd::prelude::*;
use crate::ladder::PendingKind;
use crate::text::owned;

verus! {

/// What kind of thing an audit row records.
#[derive(Debug, Clone, Copy, PartialEq, Eq, Structural)]
pub enum AuditEventKind {
    /// A session was spawned.
    Spawn,
    /// A step of a handoff.
    Handoff,
    /// A step of a park.
    Park,
    /// An instruction was typed or acknowledged.
    Inject,
    /// Something that asks for a person.
    Alert,
    /// Anything else.
    Other,
}

/// The idle signal that let an injection through.
#[derive(Debug, Clone, Copy, PartialEq, Eq, Structural)]
pub enum Gate {
    /// The agent ended its turn.
    StopHook,
    /// The session was idle when the tick came.
    IdleAtTick,
    /// The session was idle when the instruction was armed.
    AlreadyIdle,
}

/// Which wait of an instruction ran out before it could be typed.
#[derive(Debug, Clone, Copy, PartialEq, Eq, Structural)]
pub enum StuckWait {
    /// The turn in flight never ended.
    NeverIdled,
    /// The retry was armed and no idle signal came.
    RetryNeverInjected,
}

/// What an audit row says beyond its context.
#[derive(Debug)]
pub enum AuditDetails {
    /// An instruction was not acknowledged in time. With `stuck` it was never
    /// typed and is still tracked.
    AckTimeout {
        /// How often it was typed.
        attempts: u8,
        /// Which instruction.
        instruction: PendingKind,
        /// Which wait ran out.
        stuck: Option<StuckWait>,
    },
    /// The corrective round was used up too.
    Invalid {
        /// Which instruction.
        instruction: PendingKind,
        /// What failed.
        failure: String,
    },
    /// A working session has had no context reading for so many ticks.
    ContextBlind {
        /// How many.
        ticks: u32,
    },
    /// An instruction reached the terminal.
    Delivered {
        /// Which instruction.
        instruction: PendingKind,
        /// Which attempt.
        attempt: u8,
        /// Whether it is the corrective round.
        corrective: bool,
        /// What let it through.
        gate: Gate,
        /// The start of the text.
        excerpt: String,
        /// How long the text is.
        total_chars: usize,
    },
    /// An instruction did not reach the terminal.
    DeliveryFailed {
        /// Which instruction.
        instruction: PendingKind,
        /// Which attempt.
        attempt: u8,
        /// Why.
        error: String,
    },
    /// An instruction was acknowledged.
    Acked {
        /// Which instruction.
        instruction: PendingKind,
        /// Which attempt.
        attempt: u8,
        /// Whether it is the corrective round.
        corrective: bool,
    },
    /// A handoff file was validated.
    Validated {
        /// Where the file is.
        handoff_file: String,
        /// The commit it was validated against.
        wip_commit: Option<String>,
    },
    /// A run made no progress for so many events.
    CircuitBreaker {
        /// The run.
        epic: String,
        /// How many events.
        events: u32,
        /// The HEAD that did not move.
        head: Option<String>,
    },
    /// A generation hands off without a commit.
    HandoffChurn {
        /// The HEAD it started from.
        baseline_head: String,
    },
    /// A parked run has no reset time to resume at.
    ParkNoResetTime {
        /// The run.
        epic: String,
    },
    /// A resume timer was armed.
    TimerArmed {
        /// When it fires.
        fire_at: String,
    },
    /// A resume timer could not be armed.
    ParkTimerArmFailed {
        /// The run.
        epic: String,
        /// Why.
        error: String,
    },
    /// An outside condition parks every session.
    ExternalPark {
        /// The condition.
        reason: String,
    },
}

impl AuditDetails {
    /// The `kind` that the row carries, where it carries one.
    pub open spec fn kind_text(&self) -> Option<Seq<char>> {
        match self {
            AuditDetails::AckTimeout { .. } => Some("ack_timeout"@),
            AuditDetails::Invalid { instruction, .. } => Some(instruction.invalid_kind_text()),
            AuditDetails::ContextBlind { .. } => Some("context_blind"@),
            AuditDetails::DeliveryFailed { .. } => Some("delivery_failed"@),
            AuditDetails::CircuitBreaker { .. } => Some("circuit_breaker"@),
            AuditDetails::HandoffChurn { .. } => Some("handoff_churn"@),
            AuditDetails::ParkNoResetTime { .. } => Some("park_no_reset_time"@),
            AuditDetails::ParkTimerArmFailed { .. } => Some("park_timer_arm_failed"@),
            AuditDetails::ExternalPark { reason } => Some(reason@),
            _ => None,
        }
    }

    /// The `kind` of the row.
    pub fn kind(&self) -> (kind: Option<String>)
        ensures
            crate::handoff_file::opt_view(kind) == self.kind_text(),
    {
        match self {
            AuditDetails::AckTimeout { .. } => Some(owned("ack_timeout")),
            AuditDetails::Invalid { instruction, .. } => Some(owned(instruction.invalid_kind())),
            AuditDetails::ContextBlind { .. } => Some(owned("context_blind")),
            AuditDetails::DeliveryFailed { .. } => Some(owned("delivery_failed")),
            AuditDetails::CircuitBreaker { .. } => Some(owned("circuit_breaker")),
            AuditDetails::HandoffChurn { .. } => Some(owned("handoff_churn")),
            AuditDetails::ParkNoResetTime { .. } => Some(owned("park_no_reset_time")),
            AuditDetails::ParkTimerArmFailed { .. } => Some(owned("park_timer_arm_failed")),
            AuditDetails::ExternalPark { reason } => Some(reason.clone()),
            _ => None,
        }
    }
}

/// One row of the audit trail of a project.
#[derive(Debug)]
pub struct AuditRow {
    /// The project whose trail it goes to.
    pub project: String,
    /// The run.
    pub epic: String,
    /// What kind of thing it records.
    pub event: AuditEventKind,
    /// The generation, or 0 for the run as a whole.
    pub generation: u32,
    /// The session, or 0 for the run as a whole.
    pub session_id: u32,
    /// What it says.
    pub details: AuditDetails,
}

impl AuditRow {
    /// The row's context: project, run, kind, generation and session.
    pub open spec fn is_about(
        &self,
        project: Seq<char>,
        epic: Seq<char>,
        event: AuditEventKind,
        generation: u32,
        session_id: u32,
    ) -> bool {
        &&& self.project@ == project
        &&& self.epic@ == epic
        &&& self.event == event
        &&& self.generation == generation
        &&& self.session_id == session_id
    }
}

/// The `kind` of a row tells what it alerts about: a missed acknowledgement, a handoff or a
/// park that is invalid, missing context readings, a failed delivery, a run without
/// progress, a handoff without a commit, a park without a reset time or a timer, or the
/// condition that parks everything. Rows that alert about nothing carry none.
pub proof fn law_which_kind_a_row_carries(details: AuditDetails)
    ensures
        details.kind_text() == (match details {
            AuditDetails::AckTimeout { .. } => Some("ack_timeout"@),
            AuditDetails::Invalid { instruction, .. } => Some(instruction.invalid_kind_text()),
            AuditDetails::ContextBlind { .. } => Some("context_blind"@),
            AuditDetails::DeliveryFailed { .. } => Some("delivery_failed"@),
            AuditDetails::CircuitBreaker { .. } => Some("circuit_breaker"@),
            AuditDetails::HandoffChurn { .. } => Some("handoff_churn"@),
            AuditDetails::ParkNoResetTime { .. } => Some("park_no_reset_time"@),
            AuditDetails::ParkTimerArmFailed { .. } => Some("park_timer_arm_failed"@),
            AuditDetails::ExternalPark { reason } => Some(reason@),
            AuditDetails::Delivered { .. } => None,
            AuditDetails::Acked { .. } => None,
            AuditDetails::Validated { .. } => None,
            AuditDetails::TimerArmed { .. } => None,
        }),
{
}

} // verus!
