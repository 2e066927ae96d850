//! One instruction on its way up the ladder, and the decisions about it.

use vstd::prelude::*;
use crate::audit::{AuditDetails, AuditEventKind, AuditRow, StuckWait};
use crate::decimal::{decimal, push_decimal};
use crate::handoff_file::opt_view;
use crate::ladder::{
    brief_text, corrective_instruction_for, corrective_text, expected_ack_text,
    expected_written_text, tag_value, PendingKind, ACK_TAG, NANOS_PER_SEC, STUCK_WAIT_MULTIPLIER,
    WRITTEN_TAG, WRITTEN_WINDOW_MULTIPLIER,
};
use crate::session::{AgentEvent, SessionSnapshot, SupervisorState};
use crate::text::{owned, same};

verus! {

// ---------------------------------------------------------------------------
// Decisions on plain values
// ---------------------------------------------------------------------------

/// Whether a session hands off now: it works, and its context reading is known and
/// at or past the threshold. A percentage is given as a number that orders as the
/// percentage does.
pub fn should_request_handoff(
    state: SupervisorState,
    percent: Option<u64>,
    threshold: u64,
) -> (r: bool)
    ensures
        r == handoff_due(state, percent, threshold),
{
    match percent {
        Some(p) => state == SupervisorState::Working && p >= threshold,
        None => false,
    }
}

/// The session works, and its context reading is at or past the threshold.
pub open spec fn handoff_due(state: SupervisorState, percent: Option<u64>, threshold: u64) -> bool {
    &&& state is Working
    &&& percent matches Some(p) && p >= threshold
}

/// What an event says of its session being idle right now.
pub open spec fn idle_signal(event: AgentEvent) -> Option<(u32, bool)> {
    match event {
        AgentEvent::SessionEnded { session_id, reason } => Some((session_id, reason@ == "stop"@)),
        AgentEvent::SessionStarted { session_id } => Some((session_id, false)),
        AgentEvent::ToolUseStarted { session_id } => Some((session_id, false)),
        AgentEvent::UserMessage { session_id } => Some((session_id, false)),
        _ => None,
    }
}

/// The session whose turn an event ends: only the Stop hook does.
pub fn idle_session_id(event: &AgentEvent) -> (id: Option<u32>)
    ensures
        id == (match idle_signal(*event) {
            Some((session_id, true)) => Some(session_id),
            _ => None,
        }),
{
    match event {
        AgentEvent::SessionEnded { session_id, reason } => {
            if same(reason.as_str(), "stop") {
                Some(*session_id)
            } else {
                None
            }
        },
        _ => None,
    }
}

/// What an event says of its session being idle right now: a Stop says that it is;
/// a start, a tool call, a prompt or another end says that it is not. A reply says
/// nothing: the last one of a turn may be seen after that turn's Stop.
pub fn idle_effect(event: &AgentEvent) -> (effect: Option<(u32, bool)>)
    ensures
        effect == idle_signal(*event),
{
    match event {
        AgentEvent::SessionEnded { session_id, reason } => Some(
            (*session_id, same(reason.as_str(), "stop")),
        ),
        AgentEvent::SessionStarted { session_id } => Some((*session_id, false)),
        AgentEvent::ToolUseStarted { session_id } => Some((*session_id, false)),
        AgentEvent::UserMessage { session_id } => Some((*session_id, false)),
        _ => None,
    }
}

/// An idle signal types the instruction: the session is where the instruction
/// belongs, nothing is acknowledged yet, and it is the first attempt or the armed
/// second.
pub open spec fn injects_on_idle(
    state: SupervisorState,
    expected: SupervisorState,
    acked: bool,
    attempts: u8,
    awaiting_retry: bool,
) -> bool {
    &&& state == expected
    &&& !acked
    &&& attempts == 0 || (attempts == 1 && awaiting_retry)
}

/// Whether an idle signal types the instruction now.
pub fn should_inject_on_idle(
    state: SupervisorState,
    expected: SupervisorState,
    acked: bool,
    attempts: u8,
    awaiting_retry: bool,
) -> (r: bool)
    ensures
        r == injects_on_idle(state, expected, acked, attempts, awaiting_retry),
{
    state == expected && !acked && (attempts == 0 || (attempts == 1 && awaiting_retry))
}

/// What the tick concludes of an instruction that waits for its acknowledgement.
#[derive(Debug, Clone, Copy, PartialEq, Eq, Structural)]
pub enum TimeoutVerdict {
    /// Nothing to do.
    Keep,
    /// The first attempt ran out of time: retry at the next idle signal.
    ArmRetry,
    /// The second attempt ran out of time: alert and stop tracking.
    Alert,
    /// A wait for an idle signal ran out: alert, and keep tracking.
    AlertStuck,
}

/// The verdict on an instruction that waits for its acknowledgement. An armed
/// retry may wait a few windows for an idle signal; an instruction that was never
/// typed waits for the end of a whole turn. Every bound is still within.
pub open spec fn timeout_verdict_of(
    acked: bool,
    attempts: u8,
    awaiting_retry: bool,
    elapsed: Option<u128>,
    waiting_elapsed: u128,
    timeout: u128,
    max_turn_wait: u128,
) -> TimeoutVerdict {
    if acked {
        TimeoutVerdict::Keep
    } else if awaiting_retry {
        if waiting_elapsed > timeout * STUCK_WAIT_MULTIPLIER {
            TimeoutVerdict::AlertStuck
        } else {
            TimeoutVerdict::Keep
        }
    } else {
        match elapsed {
            None => if waiting_elapsed > max_turn_wait {
                TimeoutVerdict::AlertStuck
            } else {
                TimeoutVerdict::Keep
            },
            Some(e) => if e <= timeout || attempts == 0 {
                TimeoutVerdict::Keep
            } else if attempts == 1 {
                TimeoutVerdict::ArmRetry
            } else {
                TimeoutVerdict::Alert
            },
        }
    }
}

/// Decides about an instruction that waits for its acknowledgement. Times are in
/// nanoseconds: `elapsed` since it was typed last, `waiting_elapsed` since it
/// began to wait for an idle signal.
pub fn timeout_verdict(
    acked: bool,
    attempts: u8,
    awaiting_retry: bool,
    elapsed: Option<u128>,
    waiting_elapsed: u128,
    timeout: u128,
    max_turn_wait: u128,
) -> (verdict: TimeoutVerdict)
    requires
        timeout * STUCK_WAIT_MULTIPLIER <= u128::MAX,
    ensures
        verdict == timeout_verdict_of(
            acked,
            attempts,
            awaiting_retry,
            elapsed,
            waiting_elapsed,
            timeout,
            max_turn_wait,
        ),
{
    if acked {
        return TimeoutVerdict::Keep;
    }
    if awaiting_retry {
        return if waiting_elapsed > timeout * 3 {
            TimeoutVerdict::AlertStuck
        } else {
            TimeoutVerdict::Keep
        };
    }
    match elapsed {
        None => if waiting_elapsed > max_turn_wait {
            TimeoutVerdict::AlertStuck
        } else {
            TimeoutVerdict::Keep
        },
        Some(e) => if e <= timeout || attempts == 0 {
            TimeoutVerdict::Keep
        } else if attempts == 1 {
            TimeoutVerdict::ArmRetry
        } else {
            TimeoutVerdict::Alert
        },
    }
}

/// What the tick concludes of an acknowledged instruction that waits for its
/// written marker.
#[derive(Debug, Clone, Copy, PartialEq, Eq, Structural)]
pub enum WrittenVerdict {
    /// Within the window, or being validated.
    Keep,
    /// The first round ran out of time: arm the corrective one.
    Corrective,
    /// The corrective round ran out of time: alert and stop tracking.
    Alert,
}

/// The verdict on an acknowledged instruction that waits for its written marker.
pub open spec fn written_verdict_of(
    validating: bool,
    corrective: bool,
    elapsed_since_ack: Option<u128>,
    window: u128,
) -> WrittenVerdict {
    match elapsed_since_ack {
        Some(e) if !validating && e > window => if corrective {
            WrittenVerdict::Alert
        } else {
            WrittenVerdict::Corrective
        },
        _ => WrittenVerdict::Keep,
    }
}

/// Decides about an acknowledged instruction that waits for its written marker.
pub fn written_verdict(
    validating: bool,
    corrective: bool,
    elapsed_since_ack: Option<u128>,
    window: u128,
) -> (verdict: WrittenVerdict)
    ensures
        verdict == written_verdict_of(validating, corrective, elapsed_since_ack, window),
{
    match elapsed_since_ack {
        Some(e) => if validating || e <= window {
            WrittenVerdict::Keep
        } else if corrective {
            WrittenVerdict::Alert
        } else {
            WrittenVerdict::Corrective
        },
        None => WrittenVerdict::Keep,
    }
}

// ---------------------------------------------------------------------------
// The instruction
// ---------------------------------------------------------------------------

/// The windows of the ladder, in seconds.
#[derive(Debug, Clone, Copy, PartialEq, Eq, Structural)]
pub struct LadderTimes {
    /// How long an acknowledgement may take.
    pub ack_timeout_secs: u64,
    /// How long the turn in flight may take to end.
    pub max_turn_wait_secs: u64,
}

impl LadderTimes {
    /// The written window fits in 64 bits.
    pub open spec fn fits(&self) -> bool {
        self.ack_timeout_secs * WRITTEN_WINDOW_MULTIPLIER <= u64::MAX
    }

    /// The acknowledgement window in nanoseconds.
    pub open spec fn timeout(&self) -> u128 {
        (self.ack_timeout_secs * NANOS_PER_SEC) as u128
    }

    /// The longest turn in nanoseconds.
    pub open spec fn max_turn_wait(&self) -> u128 {
        (self.max_turn_wait_secs * NANOS_PER_SEC) as u128
    }

    /// The written window in seconds.
    pub open spec fn written_window_secs(&self) -> nat {
        (self.ack_timeout_secs * WRITTEN_WINDOW_MULTIPLIER) as nat
    }

    /// The written window in nanoseconds.
    pub open spec fn written_window(&self) -> u128 {
        (self.written_window_secs() * NANOS_PER_SEC) as u128
    }
}

/// The time that has passed since `at`.
pub open spec fn elapsed_since(now: u128, at: u128) -> u128 {
    if now >= at {
        (now - at) as u128
    } else {
        0
    }
}

/// The time that has passed since `at`, where there is one.
pub open spec fn elapsed_since_opt(now: u128, at: Option<u128>) -> Option<u128> {
    match at {
        Some(t) => Some(elapsed_since(now, t)),
        None => None,
    }
}

fn elapsed(now: u128, at: u128) -> (e: u128)
    ensures
        e == elapsed_since(now, at),
{
    if now >= at {
        now - at
    } else {
        0
    }
}

fn elapsed_opt(now: u128, at: Option<u128>) -> (e: Option<u128>)
    ensures
        e == elapsed_since_opt(now, at),
{
    match at {
        Some(t) => Some(elapsed(now, t)),
        None => None,
    }
}

/// What a pending instruction is, with its texts as sequences.
pub ghost struct PendingModel {
    pub kind: PendingKind,
    pub project: Seq<char>,
    pub epic: Seq<char>,
    pub generation: u32,
    pub instruction: Seq<char>,
    pub attempts: u8,
    pub injected_at: Option<u128>,
    pub waiting_since: u128,
    pub acked: bool,
    pub awaiting_retry: bool,
    pub acked_at: Option<u128>,
    pub validating: bool,
    pub corrective: bool,
    pub failure: Option<Seq<char>>,
    pub stuck_alerted: bool,
    pub episode: u32,
}

/// One instruction from its arming to its end. Times are readings of a monotonic
/// clock in nanoseconds.
#[derive(Debug)]
pub struct PendingInstruction {
    /// Which ladder it climbs.
    pub kind: PendingKind,
    /// The session's project.
    pub project: String,
    /// The session's run.
    pub epic: String,
    /// The session's generation.
    pub generation: u32,
    /// The text, without a submit key.
    pub instruction: String,
    /// How often it was typed: at most twice.
    pub attempts: u8,
    /// When it was typed last.
    pub injected_at: Option<u128>,
    /// When it began to wait for an idle signal.
    pub waiting_since: u128,
    /// The expected acknowledgement arrived.
    pub acked: bool,
    /// The first attempt ran out of time; the next idle signal types it again.
    pub awaiting_retry: bool,
    /// When the acknowledgement arrived.
    pub acked_at: Option<u128>,
    /// The written marker arrived; the validation is under way.
    pub validating: bool,
    /// It is the one corrective round.
    pub corrective: bool,
    /// What the first round got wrong.
    pub failure: Option<String>,
    /// The alert about its wait was raised.
    pub stuck_alerted: bool,
    /// The wind-down episode, for the two ack-only kinds.
    pub episode: u32,
}

impl View for PendingInstruction {
    type V = PendingModel;

    open spec fn view(&self) -> PendingModel {
        PendingModel {
            kind: self.kind,
            project: self.project@,
            epic: self.epic@,
            generation: self.generation,
            instruction: self.instruction@,
            attempts: self.attempts,
            injected_at: self.injected_at,
            waiting_since: self.waiting_since,
            acked: self.acked,
            awaiting_retry: self.awaiting_retry,
            acked_at: self.acked_at,
            validating: self.validating,
            corrective: self.corrective,
            failure: opt_view(self.failure),
            stuck_alerted: self.stuck_alerted,
            episode: self.episode,
        }
    }
}

impl PendingModel {
    /// An instruction that waits for its first idle signal.
    pub open spec fn fresh(
        kind: PendingKind,
        session: SessionSnapshot,
        instruction: Seq<char>,
        episode: u32,
        now: u128,
    ) -> PendingModel {
        PendingModel {
            kind,
            project: session.project@,
            epic: session.epic@,
            generation: session.generation,
            instruction,
            attempts: 0,
            injected_at: None,
            waiting_since: now,
            acked: false,
            awaiting_retry: false,
            acked_at: None,
            validating: false,
            corrective: false,
            failure: None,
            stuck_alerted: false,
            episode,
        }
    }

    /// What holds of an instruction on every rung: it is typed at most twice; a
    /// retry is armed after the first attempt only; an acknowledgement comes after
    /// an attempt and never with a retry armed; a validation comes after the
    /// acknowledgement; the corrective round knows what went wrong; the ack-only
    /// kinds are never acknowledged in place nor corrected; the text is that of its
    /// kind and round.
    pub open spec fn wf(self) -> bool {
        &&& self.attempts <= 2
        &&& (self.attempts == 0) == (self.injected_at is None)
        &&& self.awaiting_retry ==> self.attempts == 1 && !self.acked
        &&& self.acked ==> self.attempts > 0 && self.acked_at is Some
        &&& !self.acked ==> self.acked_at is None
        &&& self.validating ==> self.acked
        &&& self.corrective == (self.failure is Some)
        &&& self.corrective ==> self.attempts > 0
        &&& self.kind.ack_only() ==> !self.acked && !self.corrective
        &&& self.instruction == brief_text(
            self.kind,
            self.epic,
            self.generation,
            self.corrective,
            self.failure_text(),
            self.episode,
        )
    }

    /// After it was typed.
    pub open spec fn typed(self, now: u128) -> PendingModel {
        PendingModel {
            attempts: (self.attempts + 1) as u8,
            injected_at: Some(now),
            awaiting_retry: false,
            stuck_alerted: false,
            ..self
        }
    }

    /// After its acknowledgement, with the written stage ahead.
    pub open spec fn acknowledged(self, now: u128) -> PendingModel {
        PendingModel { acked: true, acked_at: Some(now), awaiting_retry: false, ..self }
    }

    /// As the one corrective round: the second attempt, armed.
    pub open spec fn corrected(self, failure: Seq<char>, now: u128) -> PendingModel {
        PendingModel {
            instruction: corrective_text(
                self.kind,
                self.epic,
                self.generation,
                failure,
                self.episode,
            ),
            attempts: 1,
            awaiting_retry: true,
            waiting_since: now,
            acked: false,
            acked_at: None,
            validating: false,
            corrective: true,
            failure: Some(failure),
            ..self
        }
    }

    /// The reply acknowledges this instruction: it was typed, it is not
    /// acknowledged yet, and the value is the one that it expects.
    pub open spec fn acknowledged_by(self, text: Seq<char>) -> bool {
        &&& !self.acked
        &&& self.attempts > 0
        &&& tag_value(text, ACK_TAG@) == Some(
            expected_ack_text(self.kind, self.generation, self.corrective, self.episode),
        )
    }

    /// The reply says that this instruction's file is written: it is acknowledged,
    /// no validation is under way, and the value is the one that it expects.
    pub open spec fn written_by(self, text: Seq<char>) -> bool {
        &&& self.acked
        &&& !self.validating
        &&& expected_written_text(self.kind, self.generation, self.corrective) is Some
        &&& tag_value(text, WRITTEN_TAG@) == expected_written_text(
            self.kind,
            self.generation,
            self.corrective,
        )
    }

    /// What went wrong in the first round.
    pub open spec fn failure_text(self) -> Seq<char> {
        match self.failure {
            Some(f) => f,
            None => "validation failed"@,
        }
    }
}

impl PendingInstruction {
    /// An instruction that waits for its first idle signal.
    pub fn new(
        kind: PendingKind,
        session: &SessionSnapshot,
        instruction: String,
        episode: u32,
        now: u128,
    ) -> (p: Self)
        ensures
            p@ == PendingModel::fresh(kind, *session, instruction@, episode, now),
    {
        PendingInstruction {
            kind,
            project: session.project.clone(),
            epic: session.epic.clone(),
            generation: session.generation,
            instruction,
            attempts: 0,
            injected_at: None,
            waiting_since: now,
            acked: false,
            awaiting_retry: false,
            acked_at: None,
            validating: false,
            corrective: false,
            failure: None,
            stuck_alerted: false,
            episode,
        }
    }

    /// Turns the instruction into its one corrective round, typed at the next idle
    /// signal.
    pub fn arm_corrective(&mut self, failure: String, now: u128)
        ensures
            final(self)@ == old(self)@.corrected(failure@, now),
    {
        self.instruction =
        corrective_instruction_for(
            self.kind,
            self.epic.as_str(),
            self.generation,
            failure.as_str(),
            self.episode,
        );
        self.attempts = 1;
        self.awaiting_retry = true;
        self.waiting_since = now;
        self.acked = false;
        self.acked_at = None;
        self.validating = false;
        self.corrective = true;
        self.failure = Some(failure);
    }

    /// The alert that the corrective round was used up too.
    pub fn invalid_alert(&self, session_id: u32, failure: String) -> (row: AuditRow)
        ensures
            is_invalid_row(row, session_id, self@, failure@),
    {
        AuditRow {
            project: self.project.clone(),
            epic: self.epic.clone(),
            event: AuditEventKind::Alert,
            generation: self.generation,
            session_id,
            details: AuditDetails::Invalid { instruction: self.kind, failure },
        }
    }

    /// A copy of what the first round got wrong.
    fn failure_or_default(&self) -> (text: String)
        ensures
            text@ == self@.failure_text(),
    {
        match &self.failure {
            Some(f) => f.clone(),
            None => owned("validation failed"),
        }
    }
}

/// The row says that the corrective round of `p` was used up too.
pub open spec fn is_invalid_row(
    row: AuditRow,
    session_id: u32,
    p: PendingModel,
    failure: Seq<char>,
) -> bool {
    &&& row.is_about(p.project, p.epic, AuditEventKind::Alert, p.generation, session_id)
    &&& row.details matches AuditDetails::Invalid { instruction, failure: text } && instruction
        == p.kind && text@ == failure
}

/// The row says that `p` was not acknowledged in time.
pub open spec fn is_ack_timeout_row(
    row: AuditRow,
    session_id: u32,
    p: PendingModel,
    stuck: Option<StuckWait>,
) -> bool {
    &&& row.is_about(p.project, p.epic, AuditEventKind::Alert, p.generation, session_id)
    &&& row.details == (AuditDetails::AckTimeout {
        attempts: p.attempts,
        instruction: p.kind,
        stuck,
    })
}

// ---------------------------------------------------------------------------
// The tick
// ---------------------------------------------------------------------------

/// What the tick does with one instruction.
#[derive(Debug, Clone, Copy, PartialEq, Eq, Structural)]
pub enum TickVerdict {
    /// Nothing.
    Keep,
    /// Arms the second attempt.
    ArmRetry,
    /// Alerts that its wait ran out, and keeps it.
    Stuck,
    /// Alerts that it was not acknowledged, and drops it.
    Unacknowledged,
    /// Arms the corrective round.
    Correct,
    /// Alerts that the written marker did not come, and drops it.
    Unwritten,
}

/// A whole number of seconds as a duration is printed.
pub open spec fn duration_text(secs: nat) -> Seq<char> {
    if secs == 0 {
        "0ns"@
    } else {
        decimal(secs) + "s"@
    }
}

/// The failure of a first round whose written marker did not come.
pub open spec fn late_written_text(times: LadderTimes) -> Seq<char> {
    "the <"@ + WRITTEN_TAG@ + "> marker did not arrive within "@ + duration_text(
        times.written_window_secs(),
    ) + " of the ACK"@
}

/// The failure of a corrective round that was not acknowledged.
pub open spec fn unacknowledged_text(p: PendingModel) -> Seq<char> {
    p.failure_text() + "; the corrective instruction was never acknowledged"@
}

/// The failure of a corrective round whose written marker did not come.
pub open spec fn unwritten_text(p: PendingModel) -> Seq<char> {
    p.failure_text() + "; the <"@ + WRITTEN_TAG@
        + "> marker did not arrive after the corrective instruction"@
}

impl PendingModel {
    /// What the tick at `now` does with the instruction.
    pub open spec fn tick_verdict(self, now: u128, times: LadderTimes) -> TickVerdict {
        if !self.acked {
            match timeout_verdict_of(
                self.acked,
                self.attempts,
                self.awaiting_retry,
                elapsed_since_opt(now, self.injected_at),
                elapsed_since(now, self.waiting_since),
                times.timeout(),
                times.max_turn_wait(),
            ) {
                TimeoutVerdict::Keep => TickVerdict::Keep,
                TimeoutVerdict::ArmRetry => TickVerdict::ArmRetry,
                TimeoutVerdict::Alert => TickVerdict::Unacknowledged,
                TimeoutVerdict::AlertStuck => if self.stuck_alerted {
                    TickVerdict::Keep
                } else {
                    TickVerdict::Stuck
                },
            }
        } else {
            match written_verdict_of(
                self.validating,
                self.corrective,
                elapsed_since_opt(now, self.acked_at),
                times.written_window(),
            ) {
                WrittenVerdict::Keep => TickVerdict::Keep,
                WrittenVerdict::Corrective => TickVerdict::Correct,
                WrittenVerdict::Alert => TickVerdict::Unwritten,
            }
        }
    }

    /// The instruction after the tick at `now`.
    pub open spec fn after_tick(self, now: u128, times: LadderTimes) -> PendingModel {
        match self.tick_verdict(now, times) {
            TickVerdict::ArmRetry => PendingModel {
                awaiting_retry: true,
                waiting_since: now,
                ..self
            },
            TickVerdict::Stuck => PendingModel { stuck_alerted: true, ..self },
            TickVerdict::Correct => self.corrected(late_written_text(times), now),
            _ => self,
        }
    }

    /// The wait that ran out.
    pub open spec fn stuck_wait(self) -> StuckWait {
        if self.awaiting_retry {
            StuckWait::RetryNeverInjected
        } else {
            StuckWait::NeverIdled
        }
    }
}

impl TickVerdict {
    /// The instruction is dropped.
    pub open spec fn drops(self) -> bool {
        self is Unacknowledged || self is Unwritten
    }

    /// An alert is raised.
    pub open spec fn alerts(self) -> bool {
        self.drops() || self is Stuck
    }
}

/// The alert that the tick raises about `p` is the one its verdict asks for.
pub open spec fn is_tick_row(
    row: AuditRow,
    session_id: u32,
    p: PendingModel,
    verdict: TickVerdict,
) -> bool {
    match verdict {
        TickVerdict::Stuck => is_ack_timeout_row(row, session_id, p, Some(p.stuck_wait())),
        TickVerdict::Unacknowledged => if p.corrective {
            is_invalid_row(row, session_id, p, unacknowledged_text(p))
        } else {
            is_ack_timeout_row(row, session_id, p, None)
        },
        TickVerdict::Unwritten => is_invalid_row(row, session_id, p, unwritten_text(p)),
        _ => false,
    }
}

/// A whole number of seconds as a duration is printed.
fn duration(secs: u64) -> (text: String)
    ensures
        text@ == duration_text(secs as nat),
{
    if secs == 0 {
        owned("0ns")
    } else {
        let mut text = String::new();
        push_decimal(&mut text, secs);
        text.append("s");
        proof {
            assert(text@ =~= decimal(secs as nat) + "s"@);
        }
        text
    }
}

/// Runs the tick at `now` on one instruction.
pub fn tick_instruction(
    p: &mut PendingInstruction,
    session_id: u32,
    now: u128,
    times: LadderTimes,
) -> (outcome: (TickVerdict, Option<AuditRow>))
    requires
        old(p)@.wf(),
        times.fits(),
    ensures
        outcome.0 == old(p)@.tick_verdict(now, times),
        final(p)@ == old(p)@.after_tick(now, times),
        final(p)@.wf(),
        match outcome.1 {
            Some(row) => is_tick_row(row, session_id, old(p)@, outcome.0),
            None => !outcome.0.alerts(),
        },
{
    let timeout: u128 = times.ack_timeout_secs as u128 * 1_000_000_000;
    let max_turn_wait: u128 = times.max_turn_wait_secs as u128 * 1_000_000_000;
    let window_secs: u64 = times.ack_timeout_secs * 3;
    let window: u128 = window_secs as u128 * 1_000_000_000;
    if !p.acked {
        let verdict = timeout_verdict(
            p.acked,
            p.attempts,
            p.awaiting_retry,
            elapsed_opt(now, p.injected_at),
            elapsed(now, p.waiting_since),
            timeout,
            max_turn_wait,
        );
        match verdict {
            TimeoutVerdict::Keep => (TickVerdict::Keep, None),
            TimeoutVerdict::ArmRetry => {
                p.awaiting_retry = true;
                p.waiting_since = now;
                (TickVerdict::ArmRetry, None)
            },
            TimeoutVerdict::AlertStuck => {
                if p.stuck_alerted {
                    return (TickVerdict::Keep, None);
                }
                p.stuck_alerted = true;
                let stuck = if p.awaiting_retry {
                    StuckWait::RetryNeverInjected
                } else {
                    StuckWait::NeverIdled
                };
                (TickVerdict::Stuck, Some(ack_timeout_alert(p, session_id, Some(stuck))))
            },
            TimeoutVerdict::Alert => {
                if p.corrective {
                    let mut failure = p.failure_or_default();
                    failure.append("; the corrective instruction was never acknowledged");
                    (TickVerdict::Unacknowledged, Some(p.invalid_alert(session_id, failure)))
                } else {
                    (TickVerdict::Unacknowledged, Some(ack_timeout_alert(p, session_id, None)))
                }
            },
        }
    } else {
        let verdict = written_verdict(
            p.validating,
            p.corrective,
            elapsed_opt(now, p.acked_at),
            window,
        );
        match verdict {
            WrittenVerdict::Keep => (TickVerdict::Keep, None),
            WrittenVerdict::Corrective => {
                let mut failure = owned("the <");
                failure.append(WRITTEN_TAG);
                failure.append("> marker did not arrive within ");
                failure.append(duration(window_secs).as_str());
                failure.append(" of the ACK");
                p.arm_corrective(failure, now);
                (TickVerdict::Correct, None)
            },
            WrittenVerdict::Alert => {
                let mut failure = p.failure_or_default();
                failure.append("; the <");
                failure.append(WRITTEN_TAG);
                failure.append("> marker did not arrive after the corrective instruction");
                (TickVerdict::Unwritten, Some(p.invalid_alert(session_id, failure)))
            },
        }
    }
}

/// The alert that an instruction was not acknowledged in time.
fn ack_timeout_alert(
    p: &PendingInstruction,
    session_id: u32,
    stuck: Option<StuckWait>,
) -> (row: AuditRow)
    ensures
        is_ack_timeout_row(row, session_id, p@, stuck),
{
    AuditRow {
        project: p.project.clone(),
        epic: p.epic.clone(),
        event: AuditEventKind::Alert,
        generation: p.generation,
        session_id,
        details: AuditDetails::AckTimeout { attempts: p.attempts, instruction: p.kind, stuck },
    }
}

} // verus!
