//! The controller that types instructions into sessions and follows each one up
//! its ladder.
//!
//! It decides; what it decides about is handed in, and what it wants done is
//! handed back: rows for the audit trail, texts to type, validations to run.

use std::collections::HashSet;
use vstd::prelude::*;
use crate::audit::{AuditDetails, AuditEventKind, AuditRow, Gate};
use crate::handoff_file::{handoff_file_relpath, handoff_file_relpath_text, opt_view};
use crate::ladder::{
    ack_value, expected_ack_value, expected_written_value, written_value, PendingKind,
};
use crate::pending::{
    handoff_due, idle_effect, idle_session_id, idle_signal, injects_on_idle, is_invalid_row,
    is_tick_row, should_inject_on_idle, should_request_handoff, tick_instruction, LadderTimes,
    PendingInstruction, PendingModel, TickVerdict,
};
use crate::prompts::{
    allclear_brief_text, handoff_instruction, handoff_instruction_text, park_instruction,
    park_instruction_text, soft_winddown_episode_instruction, winddown_allclear_episode_instruction,
    winddown_brief_text,
};
use crate::marker_values::{
    soft_winddown_episode_ack_value_text, winddown_allclear_episode_ack_value_text,
};
use crate::session::{AgentEvent, SessionSnapshot, SupervisorState};
use crate::session_map::SessionMap;
use crate::table::{
    distinct_keys, lemma_lookup, lemma_prefix_lacks, lemma_put, lemma_take_lacks, lemma_without,
    lookup, put, without,
};
use crate::text::same;

verus! {

/// How many ticks in a row a working session may be without a context reading
/// before that is repaired or alerted.
pub const BLIND_TICKS_BEFORE_ALERT: u32 = 10;

/// A spell without context readings: how many ticks, and whether its one repair
/// was tried.
#[derive(Debug, Clone, Copy, PartialEq, Eq, Structural)]
pub struct BlindState {
    /// How many ticks in a row.
    pub ticks: u32,
    /// Whether the repair was tried.
    pub rewatch_attempted: bool,
}

impl View for BlindState {
    type V = BlindState;

    open spec fn view(&self) -> BlindState {
        *self
    }
}

/// The state of the controller.
pub ghost struct InjectorModel {
    /// The instruction of each session, in the order of arming.
    pub pending: Seq<(u32, PendingModel)>,
    /// The sessions whose last signal was a Stop.
    pub idle: Set<u32>,
    /// The spells without context readings.
    pub blind: Seq<(u32, BlindState)>,
    /// The last wind-down episode of each session.
    pub episodes: Seq<(u32, u32)>,
}

/// Every instruction is on a rung that exists.
pub open spec fn all_wf(s: Seq<(u32, PendingModel)>) -> bool {
    forall|i: int| 0 <= i < s.len() ==> (#[trigger] s[i]).1.wf()
}

impl InjectorModel {
    /// No session has two instructions, two spells or two episode counters, and
    /// every instruction is on a rung that exists.
    pub open spec fn wf(self) -> bool {
        &&& distinct_keys(self.pending)
        &&& distinct_keys(self.blind)
        &&& distinct_keys(self.episodes)
        &&& all_wf(self.pending)
    }

    /// The instruction of a session is typed at an idle signal.
    pub open spec fn due_on_idle(self, session_id: u32, state: Option<SupervisorState>) -> bool {
        &&& state is Some
        &&& lookup(self.pending, session_id) matches Some(p) && injects_on_idle(
            state->0,
            p.kind.home(),
            p.acked,
            p.attempts,
            p.awaiting_retry,
        )
    }

    /// After an idle signal.
    pub open spec fn after_idle(
        self,
        session_id: u32,
        state: Option<SupervisorState>,
        now: u128,
    ) -> InjectorModel {
        if self.due_on_idle(session_id, state) {
            InjectorModel {
                pending: put(
                    self.pending,
                    session_id,
                    lookup(self.pending, session_id)->0.typed(now),
                ),
                idle: self.idle.remove(session_id),
                ..self
            }
        } else {
            self
        }
    }

    /// What is typed at an idle signal.
    pub open spec fn typed_on_idle(
        self,
        session_id: u32,
        state: Option<SupervisorState>,
    ) -> Option<Seq<char>> {
        if self.due_on_idle(session_id, state) {
            Some(lookup(self.pending, session_id)->0.instruction)
        } else {
            None
        }
    }

    /// After an instruction was armed; a session that is idle gets it at once.
    pub open spec fn after_arming(
        self,
        session_id: u32,
        p: PendingModel,
        state: Option<SupervisorState>,
        now: u128,
    ) -> InjectorModel {
        let armed = self.with_pending(session_id, p);
        if self.idle.contains(session_id) {
            armed.after_idle(session_id, state, now)
        } else {
            armed
        }
    }

    /// What is typed when an instruction is armed.
    pub open spec fn typed_on_arming(
        self,
        session_id: u32,
        p: PendingModel,
        state: Option<SupervisorState>,
    ) -> Option<Seq<char>> {
        if self.idle.contains(session_id) {
            self.with_pending(session_id, p).typed_on_idle(session_id, state)
        } else {
            None
        }
    }

    /// With `p` as the instruction of a session.
    pub open spec fn with_pending(self, session_id: u32, p: PendingModel) -> InjectorModel {
        InjectorModel { pending: put(self.pending, session_id, p), ..self }
    }

    /// Without the instruction of a session.
    pub open spec fn without_pending(self, session_id: u32) -> InjectorModel {
        InjectorModel { pending: without(self.pending, session_id), ..self }
    }

    /// After what an event says of its session being idle.
    pub open spec fn after_signal(self, event: AgentEvent) -> InjectorModel {
        match idle_signal(event) {
            Some((id, true)) => InjectorModel { idle: self.idle.insert(id), ..self },
            Some((id, false)) => InjectorModel { idle: self.idle.remove(id), ..self },
            None => self,
        }
    }

    /// A reply of the session acknowledges its instruction.
    pub open spec fn acked_by(self, session_id: u32, text: Seq<char>) -> bool {
        lookup(self.pending, session_id) matches Some(p) && p.acknowledged_by(text)
    }

    /// After a reply was scanned for an acknowledgement.
    pub open spec fn after_ack(self, session_id: u32, text: Seq<char>, now: u128) -> InjectorModel {
        let p = lookup(self.pending, session_id)->0;
        if !self.acked_by(session_id, text) {
            self
        } else if p.kind.ack_only() {
            self.without_pending(session_id)
        } else {
            self.with_pending(session_id, p.acknowledged(now))
        }
    }

    /// A reply of the session says that its file is written.
    pub open spec fn written_by(self, session_id: u32, text: Seq<char>) -> bool {
        lookup(self.pending, session_id) matches Some(p) && p.written_by(text)
    }

    /// After a reply was scanned for a written marker.
    pub open spec fn after_written(self, session_id: u32, text: Seq<char>) -> InjectorModel {
        if self.written_by(session_id, text) {
            self.with_pending(
                session_id,
                PendingModel { validating: true, ..lookup(self.pending, session_id)->0 },
            )
        } else {
            self
        }
    }

    /// The last wind-down episode of a session.
    pub open spec fn episode_count(self, session_id: u32) -> u32 {
        match lookup(self.episodes, session_id) {
            Some(e) => e,
            None => 0,
        }
    }

    /// The park brief of a session, about to wait for its first idle signal.
    pub open spec fn fresh_park(session: SessionSnapshot, now: u128) -> PendingModel {
        PendingModel::fresh(
            PendingKind::Park,
            session,
            park_instruction_text(session.epic@, session.generation),
            0,
            now,
        )
    }

    /// The wind-down of a session in its next episode.
    pub open spec fn fresh_winddown(self, session: SessionSnapshot, now: u128) -> PendingModel {
        let episode = self.next_episode(session.session_id);
        PendingModel::fresh(
            PendingKind::SoftWinddown,
            session,
            winddown_brief_text(soft_winddown_episode_ack_value_text(session.generation, episode)),
            episode,
            now,
        )
    }

    /// The all-clear of a session for its current episode.
    pub open spec fn fresh_allclear(self, session: SessionSnapshot, now: u128) -> PendingModel {
        let episode = self.current_episode(session.session_id);
        PendingModel::fresh(
            PendingKind::WinddownAllClear,
            session,
            allclear_brief_text(
                winddown_allclear_episode_ack_value_text(session.generation, episode),
            ),
            episode,
            now,
        )
    }

    /// With the next wind-down episode of a session opened.
    pub open spec fn with_next_episode(self, session_id: u32) -> InjectorModel {
        InjectorModel {
            episodes: put(self.episodes, session_id, self.next_episode(session_id)),
            ..self
        }
    }

    /// A wind-down is armed: nothing is pending, or an all-clear that it supersedes.
    pub open spec fn takes_winddown(self, session_id: u32) -> bool {
        lookup(self.pending, session_id) matches Some(q) ==> q.kind is WinddownAllClear
    }

    /// After a wind-down was begun. One that is refused opens no episode.
    pub open spec fn after_winddown(
        self,
        session: SessionSnapshot,
        state: Option<SupervisorState>,
        now: u128,
    ) -> InjectorModel {
        let id = session.session_id;
        if self.takes_winddown(id) {
            self.with_next_episode(id).after_arming(
                id,
                self.fresh_winddown(session, now),
                state,
                now,
            )
        } else {
            self
        }
    }

    /// What a wind-down types at once.
    pub open spec fn typed_on_winddown(
        self,
        session: SessionSnapshot,
        state: Option<SupervisorState>,
        now: u128,
    ) -> Option<Seq<char>> {
        let id = session.session_id;
        if self.takes_winddown(id) {
            self.with_next_episode(id).typed_on_arming(
                id,
                self.fresh_winddown(session, now),
                state,
            )
        } else {
            None
        }
    }

    /// An all-clear is armed: nothing is pending, or a wind-down that was typed.
    pub open spec fn takes_allclear(self, session_id: u32) -> bool {
        lookup(self.pending, session_id) matches Some(q) ==> q.kind is SoftWinddown && q.attempts
            > 0
    }

    /// After an all-clear was begun. A wind-down that was never typed is dropped.
    pub open spec fn after_allclear(
        self,
        session: SessionSnapshot,
        state: Option<SupervisorState>,
        now: u128,
    ) -> InjectorModel {
        let id = session.session_id;
        if self.takes_allclear(id) {
            self.after_arming(id, self.fresh_allclear(session, now), state, now)
        } else if lookup(self.pending, id)->0.kind is SoftWinddown {
            self.without_pending(id)
        } else {
            self
        }
    }

    /// What an all-clear types at once.
    pub open spec fn typed_on_allclear(
        self,
        session: SessionSnapshot,
        state: Option<SupervisorState>,
        now: u128,
    ) -> Option<Seq<char>> {
        let id = session.session_id;
        if self.takes_allclear(id) {
            self.typed_on_arming(id, self.fresh_allclear(session, now), state)
        } else {
            None
        }
    }

    /// After the timeout pass: the instructions of sessions that left their state and
    /// those that ran out of time for good are gone, the others are as the tick leaves
    /// them.
    pub open spec fn after_timeouts(
        self,
        sessions: Seq<SessionSnapshot>,
        now: u128,
        times: LadderTimes,
    ) -> InjectorModel {
        InjectorModel {
            pending: self.pending.filter(survives(sessions, now, times)).map_values(
                ticked(now, times),
            ),
            ..self
        }
    }

    /// After the idle pass: what was due in an idle session is typed, and the session
    /// works again.
    pub open spec fn after_idle_pass(
        self,
        sessions: Seq<SessionSnapshot>,
        now: u128,
    ) -> InjectorModel {
        InjectorModel {
            pending: self.pending.map_values(typed_if_due(self.idle, sessions, now)),
            idle: self.idle.difference(
                ids_of(self.pending.filter(types_now(self.idle, sessions))),
            ),
            ..self
        }
    }

    /// An instruction of the session counts as pending.
    pub open spec fn pends(self, session_id: u32) -> bool {
        lookup(self.pending, session_id) matches Some(p) && !p.stuck_alerted
    }

    /// An instruction of the session stands in the way of a wind-down.
    pub open spec fn bars_winddown(self, session_id: u32) -> bool {
        lookup(self.pending, session_id) matches Some(p) && !p.stuck_alerted && !(
        p.kind is WinddownAllClear)
    }

    /// The next wind-down episode of a session.
    pub open spec fn next_episode(self, session_id: u32) -> u32 {
        (self.episode_count(session_id) + 1) as u32
    }

    /// The episode that an all-clear closes.
    pub open spec fn current_episode(self, session_id: u32) -> u32 {
        match lookup(self.episodes, session_id) {
            Some(e) => e,
            None => 1,
        }
    }
}

/// The row says that the instruction `p` was acknowledged.
pub open spec fn is_acked_row(row: AuditRow, session_id: u32, p: PendingModel) -> bool {
    &&& row.is_about(p.project, p.epic, AuditEventKind::Inject, p.generation, session_id)
    &&& row.details == (AuditDetails::Acked {
        instruction: p.kind,
        attempt: p.attempts,
        corrective: p.corrective,
    })
}

/// The state of a session in a listing.
pub open spec fn state_in(sessions: Seq<SessionSnapshot>, id: u32) -> Option<SupervisorState>
    decreases sessions.len(),
{
    if sessions.len() == 0 {
        None
    } else if sessions[0].session_id == id {
        Some(sessions[0].state)
    } else {
        state_in(sessions.drop_first(), id)
    }
}

/// The state of a session in a listing.
pub fn session_state(sessions: &Vec<SessionSnapshot>, id: u32) -> (state: Option<SupervisorState>)
    ensures
        state == state_in(sessions@, id),
{
    let mut i: usize = 0;
    proof {
        assert(sessions@.skip(0) =~= sessions@);
    }
    while i < sessions.len()
        invariant
            i <= sessions.len(),
            state_in(sessions@.skip(i as int), id) == state_in(sessions@, id),
        decreases sessions.len() - i,
    {
        proof {
            assert(sessions@.skip(i as int).drop_first() =~= sessions@.skip(i + 1));
        }
        if sessions[i].session_id == id {
            return Some(sessions[i].state);
        }
        i = i + 1;
    }
    None
}

/// What a validation found.
#[derive(Debug)]
pub struct ValidatedHandoff {
    /// Where the handoff file is.
    pub relpath: String,
    /// The commit that HEAD is at, where it could be read.
    pub wip_commit: Option<String>,
}

/// What is to be done when a validation ends.
#[derive(Debug)]
pub enum ValidationStep {
    /// Nothing: there is no instruction, or no validation was under way.
    Ignored,
    /// The session moves on. The instruction stays until
    /// [`SamuraiInjector::complete_validation`], so that it counts as pending
    /// through the whole change.
    Transition {
        /// Which instruction.
        kind: PendingKind,
        /// What the row of the change says.
        details: AuditDetails,
    },
    /// The one corrective round was armed.
    Corrected,
    /// The corrective round failed too; the instruction is dropped.
    Alert {
        /// Which instruction.
        kind: PendingKind,
        /// The alert.
        row: AuditRow,
    },
}

/// What is to be done after an event.
#[derive(Debug)]
pub struct Observed {
    /// The acknowledgement that the event carried.
    pub acked: Option<AuditRow>,
    /// The handoff file to validate.
    pub validate: Option<String>,
}

/// One instruction that ran out of time.
#[derive(Debug)]
pub struct LadderAlert {
    /// The session.
    pub session_id: u32,
    /// Which instruction.
    pub kind: PendingKind,
    /// The alert.
    pub row: AuditRow,
}

/// The injection controller.
#[derive(Debug)]
pub struct SamuraiInjector {
    pending: SessionMap<PendingInstruction>,
    idle_now: HashSet<u32>,
    blind: SessionMap<BlindState>,
    episodes: SessionMap<u32>,
}

impl View for SamuraiInjector {
    type V = InjectorModel;

    closed spec fn view(&self) -> InjectorModel {
        InjectorModel {
            pending: self.pending@,
            idle: self.idle_now@,
            blind: self.blind@,
            episodes: self.episodes@,
        }
    }
}

impl SamuraiInjector {
    /// The controller is valid.
    pub open spec fn wf(&self) -> bool {
        self@.wf() && self.backed()
    }

    /// The tables behind the controller hold what they list.
    pub closed spec fn backed(&self) -> bool {
        self.pending.backed() && self.blind.backed() && self.episodes.backed()
    }

    /// A controller with nothing pending.
    pub fn new() -> (injector: Self)
        ensures
            injector.wf(),
            injector@ == (InjectorModel {
                pending: Seq::empty(),
                idle: Set::empty(),
                blind: Seq::empty(),
                episodes: Seq::empty(),
            }),
    {
        SamuraiInjector {
            pending: SessionMap::new(),
            idle_now: HashSet::new(),
            blind: SessionMap::new(),
            episodes: SessionMap::new(),
        }
    }

    // -----------------------------------------------------------------------
    // Views
    // -----------------------------------------------------------------------

    /// Whether an instruction of any kind is under way for the session. One whose
    /// wait ran out is still tracked, but no longer holds anything up.
    pub fn has_pending(&self, session_id: u32) -> (r: bool)
        requires
            self.wf(),
        ensures
            r == self@.pends(session_id),
    {
        match self.pending.get(session_id) {
            Some(p) => !p.stuck_alerted,
            None => false,
        }
    }

    /// Whether an instruction stands in the way of a new soft wind-down: any but an
    /// all-clear, which a new episode supersedes.
    pub fn blocks_soft_winddown(&self, session_id: u32) -> (r: bool)
        requires
            self.wf(),
        ensures
            r == self@.bars_winddown(session_id),
    {
        match self.pending.get(session_id) {
            Some(p) => !p.stuck_alerted && p.kind != PendingKind::WinddownAllClear,
            None => false,
        }
    }

    /// How often the session's instruction was typed, whether it is acknowledged
    /// and whether a retry is armed.
    pub fn pending_view(&self, session_id: u32) -> (view: Option<(u8, bool, bool)>)
        requires
            self.wf(),
        ensures
            view == (match lookup(self@.pending, session_id) {
                Some(p) => Some((p.attempts, p.acked, p.awaiting_retry)),
                None => None,
            }),
    {
        match self.pending.get(session_id) {
            Some(p) => Some((p.attempts, p.acked, p.awaiting_retry)),
            None => None,
        }
    }

    /// Whether the session's instruction is the corrective round, whether it is
    /// being validated, and what the first round got wrong.
    pub fn pending_detail(&self, session_id: u32) -> (detail: Option<(bool, bool, Option<String>)>)
        requires
            self.wf(),
        ensures
            match detail {
                Some((corrective, validating, failure)) => lookup(
                    self@.pending,
                    session_id,
                ) matches Some(p) && p.corrective == corrective && p.validating == validating
                    && p.failure == opt_view(failure),
                None => lookup(self@.pending, session_id) is None,
            },
    {
        match self.pending.get(session_id) {
            Some(p) => {
                let failure = match &p.failure {
                    Some(f) => Some(f.clone()),
                    None => None,
                };
                Some((p.corrective, p.validating, failure))
            },
            None => None,
        }
    }

    /// The text of the session's instruction.
    pub fn pending_instruction(&self, session_id: u32) -> (text: Option<String>)
        requires
            self.wf(),
        ensures
            opt_view(text) == (match lookup(self@.pending, session_id) {
                Some(p) => Some(p.instruction),
                None => None,
            }),
    {
        match self.pending.get(session_id) {
            Some(p) => Some(p.instruction.clone()),
            None => None,
        }
    }

    /// How many ticks in a row the session has been without a context reading.
    pub fn blind_ticks_view(&self, session_id: u32) -> (ticks: Option<u32>)
        requires
            self.wf(),
        ensures
            ticks == (match lookup(self@.blind, session_id) {
                Some(b) => Some(b.ticks),
                None => None,
            }),
    {
        match self.blind.get(session_id) {
            Some(b) => Some(b.ticks),
            None => None,
        }
    }

    /// Whether the session's last signal was a Stop.
    pub fn is_idle(&self, session_id: u32) -> (r: bool)
        ensures
            r == self@.idle.contains(session_id),
    {
        broadcast use vstd::std_specs::hash::group_hash_axioms;

        self.idle_now.contains(&session_id)
    }

    // -----------------------------------------------------------------------
    // Idle signals
    // -----------------------------------------------------------------------

    /// Takes over what an event says of its session being idle.
    pub fn note_idle(&mut self, event: &AgentEvent)
        requires
            old(self).wf(),
        ensures
            final(self)@ == old(self)@.after_signal(*event),
            final(self).wf(),
    {
        broadcast use vstd::std_specs::hash::group_hash_axioms;

        if let Some((session_id, idle)) = idle_effect(event) {
            if idle {
                self.idle_now.insert(session_id);
            } else {
                self.idle_now.remove(&session_id);
            }
        }
    }

    /// Decides whether an idle signal types the session's instruction, and records
    /// the attempt. Gives the text, without a submit key.
    fn arm_injection_on_idle(
        &mut self,
        session_id: u32,
        state: Option<SupervisorState>,
        now: u128,
    ) -> (text: Option<String>)
        requires
            old(self).wf(),
        ensures
            opt_view(text) == old(self)@.typed_on_idle(session_id, state),
            final(self)@.pending == old(self)@.after_idle(session_id, state, now).pending,
            final(self)@.idle == old(self)@.idle,
            final(self)@.blind == old(self)@.blind,
            final(self)@.episodes == old(self)@.episodes,
            final(self).wf(),
    {
        let s = match state {
            Some(s) => s,
            None => {
                return None;
            },
        };
        let due: bool = match self.pending.get(session_id) {
            Some(p) => should_inject_on_idle(
                s,
                p.kind.expected_state(),
                p.acked,
                p.attempts,
                p.awaiting_retry,
            ),
            None => false,
        };
        if !due {
            return None;
        }
        proof {
            let p = lookup(self@.pending, session_id)->0;
            lemma_pending_wf(self@.pending, session_id);
            lemma_put_wf(self@.pending, session_id, p.typed(now));
        }
        match self.pending.get_mut(session_id) {
            Some(p) => {
                p.attempts = p.attempts + 1;
                p.injected_at = Some(now);
                p.awaiting_retry = false;
                p.stuck_alerted = false;
                Some(p.instruction.clone())
            },
            None => None,
        }
    }

    /// An idle signal of one session. Gives the text to type; typing it makes the
    /// session work again.
    pub fn on_idle(
        &mut self,
        session_id: u32,
        state: Option<SupervisorState>,
        now: u128,
    ) -> (text: Option<String>)
        requires
            old(self).wf(),
        ensures
            opt_view(text) == old(self)@.typed_on_idle(session_id, state),
            final(self)@ == old(self)@.after_idle(session_id, state, now),
            final(self).wf(),
    {
        broadcast use vstd::std_specs::hash::group_hash_axioms;

        let text = self.arm_injection_on_idle(session_id, state, now);
        if text.is_some() {
            self.idle_now.remove(&session_id);
        }
        text
    }

    /// Types an instruction at once where its session is idle right now: no further
    /// idle signal would come on its own.
    fn inject_if_idle(
        &mut self,
        session_id: u32,
        state: Option<SupervisorState>,
        now: u128,
    ) -> (text: Option<String>)
        requires
            old(self).wf(),
        ensures
            opt_view(text) == (if old(self)@.idle.contains(session_id) {
                old(self)@.typed_on_idle(session_id, state)
            } else {
                None
            }),
            final(self)@ == (if old(self)@.idle.contains(session_id) {
                old(self)@.after_idle(session_id, state, now)
            } else {
                old(self)@
            }),
            final(self).wf(),
    {
        if self.is_idle(session_id) {
            self.on_idle(session_id, state, now)
        } else {
            None
        }
    }

    // -----------------------------------------------------------------------
    // Arming
    // -----------------------------------------------------------------------

    /// Makes `p` the instruction of a session; types it at once where the session
    /// is idle.
    fn arm(
        &mut self,
        session_id: u32,
        p: PendingInstruction,
        state: Option<SupervisorState>,
        now: u128,
    ) -> (text: Option<String>)
        requires
            old(self).wf(),
            p@.wf(),
        ensures
            opt_view(text) == old(self)@.typed_on_arming(session_id, p@, state),
            final(self)@ == old(self)@.after_arming(session_id, p@, state, now),
            final(self).wf(),
    {
        proof {
            lemma_put_wf(self@.pending, session_id, p@);
        }
        self.pending.insert(session_id, p);
        self.inject_if_idle(session_id, state, now)
    }

    /// A session was moved to `HandoffRequested`: its handoff brief waits for an
    /// idle signal.
    pub fn begin_handoff(&mut self, session: &SessionSnapshot, now: u128)
        requires
            old(self).wf(),
        ensures
            final(self)@ == old(self)@.with_pending(
                session.session_id,
                PendingModel::fresh(
                    PendingKind::Handoff,
                    *session,
                    handoff_instruction_text(session.epic@, session.generation),
                    0,
                    now,
                ),
            ),
            final(self).wf(),
    {
        let instruction = handoff_instruction(session.epic.as_str(), session.generation);
        let p = PendingInstruction::new(PendingKind::Handoff, session, instruction, 0, now);
        proof {
            lemma_put_wf(self@.pending, session.session_id, p@);
        }
        self.pending.insert(session.session_id, p);
    }

    /// A session was moved to `ParkRequested`: its park brief supersedes whatever
    /// was pending. Gives the text where it is typed at once.
    pub fn begin_park(
        &mut self,
        session: &SessionSnapshot,
        state: Option<SupervisorState>,
        now: u128,
    ) -> (text: Option<String>)
        requires
            old(self).wf(),
        ensures
            opt_view(text) == old(self)@.typed_on_arming(
                session.session_id,
                InjectorModel::fresh_park(*session, now),
                state,
            ),
            final(self)@ == old(self)@.after_arming(
                session.session_id,
                InjectorModel::fresh_park(*session, now),
                state,
                now,
            ),
            final(self).wf(),
    {
        let instruction = park_instruction(session.epic.as_str(), session.generation);
        let p = PendingInstruction::new(PendingKind::Park, session, instruction, 0, now);
        self.arm(session.session_id, p, state, now)
    }

    /// How many wind-down episodes a session has had.
    pub fn winddown_episodes(&self, session_id: u32) -> (count: u32)
        requires
            self.wf(),
        ensures
            count == self@.episode_count(session_id),
    {
        match self.episodes.get(session_id) {
            Some(e) => *e,
            None => 0,
        }
    }

    /// The next wind-down episode of a session.
    fn next_winddown_episode(&mut self, session_id: u32) -> (episode: u32)
        requires
            old(self).wf(),
            old(self)@.episode_count(session_id) < u32::MAX,
        ensures
            episode == old(self)@.episode_count(session_id) + 1,
            final(self)@ == (InjectorModel {
                episodes: put(old(self)@.episodes, session_id, episode),
                ..old(self)@
            }),
            final(self).wf(),
    {
        let next: u32 = self.winddown_episodes(session_id) + 1;
        self.episodes.insert(session_id, next);
        next
    }

    /// The wind-down episode that an all-clear closes.
    fn current_winddown_episode(&self, session_id: u32) -> (episode: u32)
        requires
            self.wf(),
        ensures
            episode == self@.current_episode(session_id),
    {
        match self.episodes.get(session_id) {
            Some(e) => *e,
            None => 1,
        }
    }

    /// A soft wind-down for a working session. It opens a new episode. It is refused
    /// where another instruction is pending, save an all-clear, which it supersedes;
    /// then nothing changes. Says whether it was armed, and gives the text where it is
    /// typed at once.
    pub fn begin_soft_winddown(
        &mut self,
        session: &SessionSnapshot,
        state: Option<SupervisorState>,
        now: u128,
    ) -> (outcome: (bool, Option<String>))
        requires
            old(self).wf(),
            old(self)@.takes_winddown(session.session_id) ==> old(self)@.episode_count(
                session.session_id,
            ) < u32::MAX,
        ensures
            outcome.0 == old(self)@.takes_winddown(session.session_id),
            opt_view(outcome.1) == old(self)@.typed_on_winddown(*session, state, now),
            final(self)@ == old(self)@.after_winddown(*session, state, now),
            final(self).wf(),
    {
        let id: u32 = session.session_id;
        let blocked: bool = match self.pending.get(id) {
            Some(p) => p.kind != PendingKind::WinddownAllClear,
            None => false,
        };
        if blocked {
            return (false, None);
        }
        let episode: u32 = self.next_winddown_episode(id);
        let instruction = soft_winddown_episode_instruction(session.generation, episode);
        let p = PendingInstruction::new(
            PendingKind::SoftWinddown,
            session,
            instruction,
            episode,
            now,
        );
        let text = self.arm(id, p, state, now);
        (true, text)
    }

    /// The end of a wind-down for a working session, under the episode that it
    /// closes. A wind-down that was typed is superseded; one that was not is dropped
    /// in silence, for the session never saw it; any other instruction refuses the
    /// all-clear.
    pub fn begin_winddown_allclear(
        &mut self,
        session: &SessionSnapshot,
        state: Option<SupervisorState>,
        now: u128,
    ) -> (outcome: (bool, Option<String>))
        requires
            old(self).wf(),
        ensures
            outcome.0 == old(self)@.takes_allclear(session.session_id),
            opt_view(outcome.1) == old(self)@.typed_on_allclear(*session, state, now),
            final(self)@ == old(self)@.after_allclear(*session, state, now),
            final(self).wf(),
    {
        let id: u32 = session.session_id;
        let episode: u32 = self.current_winddown_episode(id);
        let mut undelivered: bool = false;
        let mut refused: bool = false;
        if let Some(q) = self.pending.get(id) {
            if q.kind == PendingKind::SoftWinddown {
                undelivered = q.attempts == 0;
            } else {
                refused = true;
            }
        }
        if undelivered {
            proof {
                lemma_without_wf(self@.pending, id);
            }
            self.pending.remove(id);
            return (false, None);
        }
        if refused {
            return (false, None);
        }
        let instruction = winddown_allclear_episode_instruction(session.generation, episode);
        let p = PendingInstruction::new(
            PendingKind::WinddownAllClear,
            session,
            instruction,
            episode,
            now,
        );
        let text = self.arm(id, p, state, now);
        (true, text)
    }

    /// The session's terminal was closed: its instruction and its idle flag go.
    pub fn remove_session(&mut self, session_id: u32)
        requires
            old(self).wf(),
        ensures
            final(self)@ == (InjectorModel {
                idle: old(self)@.idle.remove(session_id),
                ..old(self)@.without_pending(session_id)
            }),
            lookup(final(self)@.pending, session_id) is None,
            forall|id: u32|
                id != session_id ==> #[trigger] lookup(final(self)@.pending, id) == lookup(
                    old(self)@.pending,
                    id,
                ),
            final(self).wf(),
    {
        broadcast use vstd::std_specs::hash::group_hash_axioms;

        proof {
            lemma_without_wf(self@.pending, session_id);
            lemma_without(self@.pending, session_id);
        }
        self.pending.remove(session_id);
        self.idle_now.remove(&session_id);
    }

    // -----------------------------------------------------------------------
    // Replies
    // -----------------------------------------------------------------------

    /// Scans one reply for the acknowledgement that its session owes. Only the
    /// expected value of an instruction that was typed counts. The acknowledgement
    /// completes an ack-only instruction.
    pub fn scan_ack(&mut self, session_id: u32, text: &str, now: u128) -> (row: Option<AuditRow>)
        requires
            old(self).wf(),
        ensures
            final(self)@ == old(self)@.after_ack(session_id, text@, now),
            match row {
                Some(r) => old(self)@.acked_by(session_id, text@) && is_acked_row(
                    r,
                    session_id,
                    lookup(old(self)@.pending, session_id)->0,
                ),
                None => !old(self)@.acked_by(session_id, text@),
            },
            final(self).wf(),
    {
        let value = match ack_value(text) {
            Some(v) => v,
            None => {
                return None;
            },
        };
        let (kind, row) = match self.pending.get(session_id) {
            Some(p) => {
                if p.acked || p.attempts == 0 {
                    return None;
                }
                let expected = expected_ack_value(p.kind, p.generation, p.corrective, p.episode);
                if !same(value.as_str(), expected.as_str()) {
                    return None;
                }
                let row = AuditRow {
                    project: p.project.clone(),
                    epic: p.epic.clone(),
                    event: AuditEventKind::Inject,
                    generation: p.generation,
                    session_id,
                    details: AuditDetails::Acked {
                        instruction: p.kind,
                        attempt: p.attempts,
                        corrective: p.corrective,
                    },
                };
                (p.kind, row)
            },
            None => {
                return None;
            },
        };
        proof {
            let p = lookup(self@.pending, session_id)->0;
            lemma_pending_wf(self@.pending, session_id);
            if kind.ack_only() {
                lemma_without_wf(self@.pending, session_id);
            } else {
                lemma_put_wf(self@.pending, session_id, p.acknowledged(now));
            }
        }
        if kind.is_ack_only() {
            self.pending.remove(session_id);
        } else if let Some(p) = self.pending.get_mut(session_id) {
            p.acked = true;
            p.acked_at = Some(now);
            p.awaiting_retry = false;
        }
        Some(row)
    }

    /// Scans one reply for the written marker that its session owes, and claims the
    /// validation that it asks for. Gives the path of the file to validate.
    pub fn scan_written(&mut self, session_id: u32, text: &str) -> (relpath: Option<String>)
        requires
            old(self).wf(),
        ensures
            final(self)@ == old(self)@.after_written(session_id, text@),
            opt_view(relpath) == (if old(self)@.written_by(session_id, text@) {
                let p = lookup(old(self)@.pending, session_id)->0;
                Some(handoff_file_relpath_text(p.epic, p.generation))
            } else {
                None
            }),
            final(self).wf(),
    {
        let value = match written_value(text) {
            Some(v) => v,
            None => {
                return None;
            },
        };
        let relpath = match self.pending.get(session_id) {
            Some(p) => {
                if !p.acked || p.validating {
                    return None;
                }
                match expected_written_value(p.kind, p.generation, p.corrective) {
                    Some(expected) => {
                        if !same(value.as_str(), expected.as_str()) {
                            return None;
                        }
                    },
                    None => {
                        return None;
                    },
                }
                handoff_file_relpath(p.epic.as_str(), p.generation)
            },
            None => {
                return None;
            },
        };
        proof {
            let p = lookup(self@.pending, session_id)->0;
            lemma_pending_wf(self@.pending, session_id);
            lemma_put_wf(
                self@.pending,
                session_id,
                PendingModel { validating: true, ..p },
            );
        }
        if let Some(p) = self.pending.get_mut(session_id) {
            p.validating = true;
        }
        Some(relpath)
    }

    /// An event from the transcript: it may say something of its session being
    /// idle, and a reply may carry markers. The acknowledgement is read first, so a
    /// reply with both markers counts as acknowledged before it counts as written.
    pub fn observe(&mut self, event: &AgentEvent, now: u128) -> (seen: Observed)
        requires
            old(self).wf(),
        ensures
            match *event {
                AgentEvent::AssistantMessage { session_id, text } => {
                    let acked = old(self)@.after_ack(session_id, text@, now);
                    &&& final(self)@ == acked.after_written(session_id, text@)
                    &&& seen.acked is Some == old(self)@.acked_by(session_id, text@)
                    &&& seen.acked matches Some(row) ==> is_acked_row(
                        row,
                        session_id,
                        lookup(old(self)@.pending, session_id)->0,
                    )
                    &&& opt_view(seen.validate) == (if acked.written_by(session_id, text@) {
                        let p = lookup(acked.pending, session_id)->0;
                        Some(handoff_file_relpath_text(p.epic, p.generation))
                    } else {
                        None
                    })
                },
                _ => final(self)@ == old(self)@.after_signal(*event) && seen.acked is None
                    && seen.validate is None,
            },
            final(self).wf(),
    {
        self.note_idle(event);
        match event {
            AgentEvent::AssistantMessage { session_id, text } => {
                let acked = self.scan_ack(*session_id, text.as_str(), now);
                let validate = self.scan_written(*session_id, text.as_str());
                Observed { acked, validate }
            },
            _ => Observed { acked: None, validate: None },
        }
    }

    /// An event from the hook chain. A Stop is an idle signal: it may type the
    /// session's instruction. `state` is the session's state now.
    pub fn observe_hook(
        &mut self,
        event: &AgentEvent,
        state: Option<SupervisorState>,
        now: u128,
    ) -> (typed: Option<(u32, String)>)
        requires
            old(self).wf(),
        ensures
            ({
                let noted = old(self)@.after_signal(*event);
                match idle_signal(*event) {
                    Some((id, true)) => {
                        &&& final(self)@ == noted.after_idle(id, state, now)
                        &&& match typed {
                            Some((typed_id, text)) => typed_id == id && noted.typed_on_idle(
                                id,
                                state,
                            ) == Some(text@),
                            None => noted.typed_on_idle(id, state) is None,
                        }
                    },
                    _ => final(self)@ == noted && typed is None,
                }
            }),
            final(self).wf(),
    {
        self.note_idle(event);
        match idle_session_id(event) {
            Some(id) => match self.on_idle(id, state, now) {
                Some(text) => Some((id, text)),
                None => None,
            },
            None => None,
        }
    }

    /// The row about what became of a text that was handed to the terminal. Nothing
    /// where the instruction is gone by then.
    pub fn record_delivery_outcome(
        &self,
        session_id: u32,
        gate: Gate,
        excerpt: String,
        total_chars: usize,
        result: Result<(), String>,
    ) -> (row: Option<AuditRow>)
        requires
            self.wf(),
        ensures
            match lookup(self@.pending, session_id) {
                None => row is None,
                Some(p) => row matches Some(r) && match result {
                    Ok(_) => r.is_about(
                        p.project,
                        p.epic,
                        AuditEventKind::Inject,
                        p.generation,
                        session_id,
                    ) && r.details == (AuditDetails::Delivered {
                        instruction: p.kind,
                        attempt: p.attempts,
                        corrective: p.corrective,
                        gate,
                        excerpt,
                        total_chars,
                    }),
                    Err(error) => r.is_about(
                        p.project,
                        p.epic,
                        AuditEventKind::Alert,
                        p.generation,
                        session_id,
                    ) && r.details == (AuditDetails::DeliveryFailed {
                        instruction: p.kind,
                        attempt: p.attempts,
                        error,
                    }),
                },
            },
    {
        match self.pending.get(session_id) {
            Some(p) => {
                let (event, details) = match result {
                    Ok(_) => (
                        AuditEventKind::Inject,
                        AuditDetails::Delivered {
                            instruction: p.kind,
                            attempt: p.attempts,
                            corrective: p.corrective,
                            gate,
                            excerpt,
                            total_chars,
                        },
                    ),
                    Err(error) => (
                        AuditEventKind::Alert,
                        AuditDetails::DeliveryFailed {
                            instruction: p.kind,
                            attempt: p.attempts,
                            error,
                        },
                    ),
                };
                Some(
                    AuditRow {
                        project: p.project.clone(),
                        epic: p.epic.clone(),
                        event,
                        generation: p.generation,
                        session_id,
                        details,
                    },
                )
            },
            None => None,
        }
    }

    // -----------------------------------------------------------------------
    // Validation
    // -----------------------------------------------------------------------

    /// A validation ended. A valid handoff moves the session on, and the instruction
    /// stays until that is done; a failed one arms the corrective round, or alerts
    /// where that was the corrective round.
    pub fn finish_validation(
        &mut self,
        session_id: u32,
        outcome: Result<ValidatedHandoff, String>,
        now: u128,
    ) -> (step: ValidationStep)
        requires
            old(self).wf(),
        ensures
            match lookup(old(self)@.pending, session_id) {
                Some(p) if p.validating => match outcome {
                    Ok(proof_of) => final(self)@ == old(self)@ && step
                        == (ValidationStep::Transition {
                        kind: p.kind,
                        details: AuditDetails::Validated {
                            handoff_file: proof_of.relpath,
                            wip_commit: proof_of.wip_commit,
                        },
                    }),
                    Err(failure) => if p.corrective {
                        &&& final(self)@ == old(self)@.without_pending(session_id)
                        &&& step matches ValidationStep::Alert { kind, row } && kind == p.kind
                            && is_invalid_row(row, session_id, p, failure@)
                    } else {
                        &&& final(self)@ == old(self)@.with_pending(
                            session_id,
                            p.corrected(failure@, now),
                        )
                        &&& step is Corrected
                    },
                },
                _ => final(self)@ == old(self)@ && step is Ignored,
            },
            step is Transition <==> outcome is Ok && (lookup(
                old(self)@.pending,
                session_id,
            ) matches Some(p) && p.validating),
            step is Alert ==> lookup(final(self)@.pending, session_id) is None,
            step is Corrected ==> (lookup(final(self)@.pending, session_id) matches Some(p)
                && p.corrective && p.failure == Some(outcome->Err_0@) && p.awaiting_retry
                && !p.acked && !p.validating),
            forall|id: u32|
                id != session_id ==> #[trigger] lookup(final(self)@.pending, id) == lookup(
                    old(self)@.pending,
                    id,
                ),
            final(self).wf(),
    {
        proof {
            lemma_without(self@.pending, session_id);
            if lookup(self@.pending, session_id) is Some && outcome is Err {
                let p = lookup(self@.pending, session_id)->0;
                lemma_put(self@.pending, session_id, p.corrected(outcome->Err_0@, now));
            }
        }
        let (kind, corrective) = match self.pending.get(session_id) {
            Some(p) => {
                if !p.validating {
                    return ValidationStep::Ignored;
                }
                (p.kind, p.corrective)
            },
            None => {
                return ValidationStep::Ignored;
            },
        };
        match outcome {
            Ok(found) => ValidationStep::Transition {
                kind,
                details: AuditDetails::Validated {
                    handoff_file: found.relpath,
                    wip_commit: found.wip_commit,
                },
            },
            Err(failure) => {
                proof {
                    let p = lookup(self@.pending, session_id)->0;
                    lemma_pending_wf(self@.pending, session_id);
                    lemma_without_wf(self@.pending, session_id);
                    if !p.corrective {
                        lemma_put_wf(self@.pending, session_id, p.corrected(failure@, now));
                    }
                }
                if corrective {
                    match self.pending.remove(session_id) {
                        Some(p) => {
                            let row = p.invalid_alert(session_id, failure);
                            ValidationStep::Alert { kind, row }
                        },
                        None => ValidationStep::Ignored,
                    }
                } else {
                    if let Some(p) = self.pending.get_mut(session_id) {
                        p.arm_corrective(failure, now);
                    }
                    ValidationStep::Corrected
                }
            },
        }
    }

    /// The change that a validation asked for is done, or was refused: the
    /// instruction goes.
    pub fn complete_validation(&mut self, session_id: u32)
        requires
            old(self).wf(),
        ensures
            final(self)@ == old(self)@.without_pending(session_id),
            final(self).wf(),
    {
        proof {
            lemma_without_wf(self@.pending, session_id);
        }
        self.pending.remove(session_id);
    }
}

/// The state that a validated instruction moves its session to; an ack-only
/// instruction is never validated.
pub open spec fn completion_state(kind: PendingKind) -> Option<SupervisorState> {
    match kind {
        PendingKind::Handoff => Some(SupervisorState::HandoffWritten),
        PendingKind::Park => Some(SupervisorState::Parked),
        _ => None,
    }
}

/// The state that a validated instruction moves its session to.
pub fn validated_state(kind: PendingKind) -> (state: Option<SupervisorState>)
    ensures
        state == completion_state(kind),
{
    match kind {
        PendingKind::Handoff => Some(SupervisorState::HandoffWritten),
        PendingKind::Park => Some(SupervisorState::Parked),
        _ => None,
    }
}

/// An instruction that is looked up is on a rung that exists.
proof fn lemma_pending_wf(s: Seq<(u32, PendingModel)>, id: u32)
    requires
        all_wf(s),
    ensures
        lookup(s, id) matches Some(p) ==> p.wf(),
{
    lemma_lookup(s, id);
}

proof fn lemma_put_wf(s: Seq<(u32, PendingModel)>, id: u32, p: PendingModel)
    requires
        all_wf(s),
        distinct_keys(s),
        p.wf(),
    ensures
        all_wf(put(s, id, p)),
        distinct_keys(put(s, id, p)),
{
    lemma_put(s, id, p);
}

proof fn lemma_without_wf(s: Seq<(u32, PendingModel)>, id: u32)
    requires
        all_wf(s),
        distinct_keys(s),
    ensures
        all_wf(without(s, id)),
        distinct_keys(without(s, id)),
{
    lemma_without(s, id);
    lemma_filter_wf(s, crate::table::other_than(id));
}

pub(crate) proof fn lemma_filter_wf(s: Seq<(u32, PendingModel)>, keep: spec_fn((u32, PendingModel)) -> bool)
    requires
        all_wf(s),
    ensures
        all_wf(s.filter(keep)),
    decreases s.len(),
{
    reveal(Seq::filter);
    if s.len() > 0 {
        assert(all_wf(s.drop_last())) by {
            assert forall|i: int| 0 <= i < s.drop_last().len() implies (
            #[trigger] s.drop_last()[i]).1.wf() by {
                assert(s.drop_last()[i] == s[i]);
            }
        }
        lemma_filter_wf(s.drop_last(), keep);
        assert(s.last() == s[s.len() - 1]);
    }
}

// ---------------------------------------------------------------------------
// The three passes of a tick
// ---------------------------------------------------------------------------

/// A session as the tick finds it.
#[derive(Debug)]
pub struct SessionReading {
    /// The session.
    pub session: SessionSnapshot,
    /// Its context reading, as a number that orders as the percentage does.
    pub percent: Option<u64>,
    /// The threshold of its run, where the run has one of its own.
    pub threshold: Option<u64>,
}

impl SessionReading {
    /// A working session without a context reading cannot ever hand off.
    pub open spec fn blind(&self) -> bool {
        self.session.state is Working && self.percent is None
    }

    /// The threshold that counts.
    pub open spec fn threshold_or(&self, global: u64) -> u64 {
        match self.threshold {
            Some(t) => t,
            None => global,
        }
    }

    /// The session hands off now.
    pub open spec fn due(&self, global: u64) -> bool {
        handoff_due(self.session.state, self.percent, self.threshold_or(global))
    }
}

/// What the trigger pass asks for.
#[derive(Debug)]
pub enum TriggerAction {
    /// Move the session to `HandoffRequested`, then
    /// [`SamuraiInjector::begin_handoff`].
    RequestHandoff {
        /// The session.
        session_id: u32,
    },
    /// Attach the transcript watch anew, then
    /// [`SamuraiInjector::rewatch_finished`].
    Rewatch {
        /// The session.
        session_id: u32,
    },
    /// Append the alert that the session is blind.
    AlertBlind {
        /// The alert.
        row: AuditRow,
    },
}

/// The spell of a session before this tick.
pub open spec fn spell_of(blind: Seq<(u32, BlindState)>, id: u32) -> BlindState {
    match lookup(blind, id) {
        Some(b) => b,
        None => BlindState { ticks: 0, rewatch_attempted: false },
    }
}

/// The spells after one session was looked at: a blind one counts one more tick,
/// any other has its spell ended.
pub open spec fn blind_step(
    blind: Seq<(u32, BlindState)>,
    reading: SessionReading,
) -> Seq<(u32, BlindState)> {
    let id = reading.session.session_id;
    if reading.blind() {
        put(
            blind,
            id,
            BlindState {
                ticks: (spell_of(blind, id).ticks + 1) as u32,
                ..spell_of(blind, id)
            },
        )
    } else {
        without(blind, id)
    }
}

/// The spells after every session was looked at, in order.
pub open spec fn blind_steps(
    blind: Seq<(u32, BlindState)>,
    readings: Seq<SessionReading>,
) -> Seq<(u32, BlindState)>
    decreases readings.len(),
{
    if readings.len() == 0 {
        blind
    } else {
        blind_step(blind_steps(blind, readings.drop_last()), readings.last())
    }
}

/// What the trigger pass does about one session: the tick at which its spell
/// reaches the limit asks for the one repair, or alerts where that was tried or
/// cannot be; a session past its threshold hands off.
#[derive(Debug, Clone, Copy, PartialEq, Eq, Structural)]
pub enum Trigger {
    /// Nothing.
    Nothing,
    /// A handoff.
    Handoff,
    /// The repair of its watch.
    Rewatch,
    /// The alert.
    Blind,
}

/// What the trigger pass does about one session.
pub open spec fn trigger_of(
    blind: Seq<(u32, BlindState)>,
    reading: SessionReading,
    global: u64,
    can_rewatch: bool,
) -> Trigger {
    let spell = spell_of(blind, reading.session.session_id);
    if reading.blind() {
        if spell.ticks + 1 != BLIND_TICKS_BEFORE_ALERT {
            Trigger::Nothing
        } else if can_rewatch && !spell.rewatch_attempted {
            Trigger::Rewatch
        } else {
            Trigger::Blind
        }
    } else if reading.due(global) {
        Trigger::Handoff
    } else {
        Trigger::Nothing
    }
}

/// What the trigger pass does, session by session, with the index of the session.
pub open spec fn triggers(
    blind: Seq<(u32, BlindState)>,
    readings: Seq<SessionReading>,
    global: u64,
    can_rewatch: bool,
) -> Seq<(int, Trigger)>
    decreases readings.len(),
{
    if readings.len() == 0 {
        Seq::empty()
    } else {
        let init = readings.drop_last();
        let before = triggers(blind, init, global, can_rewatch);
        let t = trigger_of(blind_steps(blind, init), readings.last(), global, can_rewatch);
        if t is Nothing {
            before
        } else {
            before.push((init.len() as int, t))
        }
    }
}

/// The row says that the session has been blind for `ticks` ticks.
pub open spec fn is_blind_row(row: AuditRow, session: SessionSnapshot, ticks: u32) -> bool {
    &&& row.is_about(
        session.project@,
        session.epic@,
        AuditEventKind::Alert,
        session.generation,
        session.session_id,
    )
    &&& row.details == (AuditDetails::ContextBlind { ticks })
}

/// The action is what the trigger asks for about the session.
pub open spec fn is_action(action: TriggerAction, session: SessionSnapshot, t: Trigger) -> bool {
    match t {
        Trigger::Nothing => false,
        Trigger::Handoff => action == (TriggerAction::RequestHandoff {
            session_id: session.session_id,
        }),
        Trigger::Rewatch => action == (TriggerAction::Rewatch { session_id: session.session_id }),
        Trigger::Blind => action matches TriggerAction::AlertBlind { row } && is_blind_row(
            row,
            session,
            BLIND_TICKS_BEFORE_ALERT,
        ),
    }
}

/// The actions are those that the triggers ask for, in order.
pub open spec fn are_actions(
    actions: Seq<TriggerAction>,
    readings: Seq<SessionReading>,
    due: Seq<(int, Trigger)>,
) -> bool {
    &&& actions.len() == due.len()
    &&& forall|i: int|
        #![trigger actions[i]]
        #![trigger due[i]]
        0 <= i < due.len() ==> 0 <= due[i].0 < readings.len() && is_action(
            actions[i],
            readings[due[i].0].session,
            due[i].1,
        )
}

/// A session is among those that the tick found.
pub open spec fn found(readings: Seq<SessionReading>, id: u32) -> bool {
    exists|i: int| 0 <= i < readings.len() && (#[trigger] readings[i]).session.session_id == id
}

/// The spells of the sessions that the tick found.
pub open spec fn spell_found(readings: Seq<SessionReading>) -> spec_fn((u32, BlindState)) -> bool {
    |e: (u32, BlindState)| found(readings, e.0)
}

/// No counter of a spell is at its end.
pub open spec fn can_count(blind: Seq<(u32, BlindState)>, readings: Seq<SessionReading>) -> bool {
    forall|k: int|
        0 <= k < readings.len() && readings[k].blind() ==> spell_of(
            blind_steps(blind, readings.take(k)),
            (#[trigger] readings[k]).session.session_id,
        ).ticks < u32::MAX
}

/// The session is where its instruction belongs, and the instruction is not
/// dropped at this tick.
pub open spec fn survives(
    sessions: Seq<SessionSnapshot>,
    now: u128,
    times: LadderTimes,
) -> spec_fn((u32, PendingModel)) -> bool {
    |e: (u32, PendingModel)|
        state_in(sessions, e.0) == Some(e.1.kind.home()) && !e.1.tick_verdict(now, times).drops()
}

/// The session is where its instruction belongs, and the instruction is dropped
/// with an alert.
pub open spec fn expires(
    sessions: Seq<SessionSnapshot>,
    now: u128,
    times: LadderTimes,
) -> spec_fn((u32, PendingModel)) -> bool {
    |e: (u32, PendingModel)|
        state_in(sessions, e.0) == Some(e.1.kind.home()) && e.1.tick_verdict(now, times).drops()
}

/// The session is where its instruction belongs, and its wait ran out.
pub open spec fn sticks(
    sessions: Seq<SessionSnapshot>,
    now: u128,
    times: LadderTimes,
) -> spec_fn((u32, PendingModel)) -> bool {
    |e: (u32, PendingModel)|
        state_in(sessions, e.0) == Some(e.1.kind.home()) && e.1.tick_verdict(now, times) is Stuck
}

/// One instruction after the tick.
pub open spec fn ticked(now: u128, times: LadderTimes) -> spec_fn((u32, PendingModel)) -> (
    u32,
    PendingModel,
) {
    |e: (u32, PendingModel)| (e.0, e.1.after_tick(now, times))
}

/// The alerts are those that the verdicts on `entries` ask for, in order.
pub open spec fn are_alerts(
    alerts: Seq<LadderAlert>,
    entries: Seq<(u32, PendingModel)>,
    now: u128,
    times: LadderTimes,
) -> bool {
    &&& alerts.len() == entries.len()
    &&& forall|i: int|
        0 <= i < alerts.len() ==> #[trigger] is_alert(alerts[i], entries[i], now, times)
}

/// The alert is the one that the verdict on the instruction asks for.
pub open spec fn is_alert(
    alert: LadderAlert,
    entry: (u32, PendingModel),
    now: u128,
    times: LadderTimes,
) -> bool {
    &&& alert.session_id == entry.0
    &&& alert.kind == entry.1.kind
    &&& is_tick_row(alert.row, entry.0, entry.1, entry.1.tick_verdict(now, times))
}

/// The session is idle, and its instruction is typed at an idle signal.
pub open spec fn types_now(
    idle: Set<u32>,
    sessions: Seq<SessionSnapshot>,
) -> spec_fn((u32, PendingModel)) -> bool {
    |e: (u32, PendingModel)|
        idle.contains(e.0) && state_in(sessions, e.0) is Some && injects_on_idle(
            state_in(sessions, e.0)->0,
            e.1.kind.home(),
            e.1.acked,
            e.1.attempts,
            e.1.awaiting_retry,
        )
}

/// One instruction after the idle pass.
pub open spec fn typed_if_due(
    idle: Set<u32>,
    sessions: Seq<SessionSnapshot>,
    now: u128,
) -> spec_fn((u32, PendingModel)) -> (u32, PendingModel) {
    |e: (u32, PendingModel)|
        if types_now(idle, sessions)(e) {
            (e.0, e.1.typed(now))
        } else {
            e
        }
}

/// The texts of the instructions, with their sessions.
pub open spec fn texts_of(entries: Seq<(u32, PendingModel)>) -> Seq<(u32, Seq<char>)> {
    entries.map_values(|e: (u32, PendingModel)| (e.0, e.1.instruction))
}

/// The views of the texts, with their sessions.
pub open spec fn typed_views(typed: Seq<(u32, String)>) -> Seq<(u32, Seq<char>)> {
    typed.map_values(|t: (u32, String)| (t.0, t.1@))
}

/// The ids of the entries.
pub open spec fn ids_of(entries: Seq<(u32, PendingModel)>) -> Set<u32> {
    Set::new(|id: u32| lookup(entries, id) is Some)
}

impl SamuraiInjector {
    /// The trigger pass: counts the ticks of blind sessions, and says which
    /// sessions hand off now, which transcript watches are repaired and which
    /// alerts are raised. Spells of sessions that are gone end.
    pub fn trigger_pass(
        &mut self,
        readings: &Vec<SessionReading>,
        threshold: u64,
        can_rewatch: bool,
    ) -> (actions: Vec<TriggerAction>)
        requires
            old(self).wf(),
            can_count(old(self)@.blind, readings@),
        ensures
            final(self)@ == (InjectorModel {
                blind: blind_steps(old(self)@.blind, readings@).filter(spell_found(readings@)),
                ..old(self)@
            }),
            are_actions(
                actions@,
                readings@,
                triggers(old(self)@.blind, readings@, threshold, can_rewatch),
            ),
            final(self).wf(),
    {
        let mut actions: Vec<TriggerAction> = Vec::new();
        let ghost blind = self@.blind;
        let mut k: usize = 0;
        proof {
            assert(readings@.take(0) =~= Seq::empty());
        }
        while k < readings.len()
            invariant
                k <= readings.len(),
                self.wf(),
                self@.pending == old(self)@.pending,
                self@.idle == old(self)@.idle,
                self@.episodes == old(self)@.episodes,
                self@.blind == blind_steps(blind, readings@.take(k as int)),
                can_count(blind, readings@),
                are_actions(
                    actions@,
                    readings@,
                    triggers(blind, readings@.take(k as int), threshold, can_rewatch),
                ),
            decreases readings.len() - k,
        {
            let reading = &readings[k];
            let id: u32 = reading.session.session_id;
            let ghost before = self@.blind;
            let ghost due_before = triggers(
                blind,
                readings@.take(k as int),
                threshold,
                can_rewatch,
            );
            proof {
                let upto = readings@.take(k + 1);
                assert(upto.drop_last() =~= readings@.take(k as int));
                assert(upto.last() == *reading);
                lemma_spell_wf(before, id);
            }
            let ghost t = trigger_of(before, *reading, threshold, can_rewatch);
            let step: Option<TriggerAction> = if reading.session.state == SupervisorState::Working
                && reading.percent.is_none() {
                self.note_blind_tick(&reading.session, can_rewatch)
            } else {
                self.blind.remove(id);
                let limit: u64 = match reading.threshold {
                    Some(t) => t,
                    None => threshold,
                };
                if should_request_handoff(reading.session.state, reading.percent, limit) {
                    Some(TriggerAction::RequestHandoff { session_id: id })
                } else {
                    None
                }
            };
            let ghost sofar = actions@;
            proof {
                assert(match step {
                    Some(a) => is_action(a, reading.session, t),
                    None => t is Nothing,
                });
            }
            if let Some(action) = step {
                actions.push(action);
            }
            proof {
                assert(self@.blind == blind_step(before, *reading));
                let due = triggers(blind, readings@.take(k + 1), threshold, can_rewatch);
                if t is Nothing {
                    assert(due == due_before);
                } else {
                    assert(due == due_before.push((k as int, t)));
                    lemma_actions_push(sofar, readings@, due_before, actions@.last(), k as int, t);
                    assert(actions@ =~= sofar.push(actions@.last()));
                }
            }
            k = k + 1;
        }
        proof {
            assert(readings@.take(k as int) =~= readings@);
        }
        self.retain_found(readings);
        actions
    }

    /// Counts one more tick of a working session without a context reading, and
    /// says what is to be done at the limit.
    fn note_blind_tick(&mut self, session: &SessionSnapshot, can_rewatch: bool) -> (action: Option<
        TriggerAction,
    >)
        requires
            old(self).wf(),
            spell_of(old(self)@.blind, session.session_id).ticks < u32::MAX,
        ensures
            ({
                let spell = spell_of(old(self)@.blind, session.session_id);
                let t = if spell.ticks + 1 != BLIND_TICKS_BEFORE_ALERT {
                    Trigger::Nothing
                } else if can_rewatch && !spell.rewatch_attempted {
                    Trigger::Rewatch
                } else {
                    Trigger::Blind
                };
                &&& final(self)@ == (InjectorModel {
                    blind: put(
                        old(self)@.blind,
                        session.session_id,
                        BlindState { ticks: (spell.ticks + 1) as u32, ..spell },
                    ),
                    ..old(self)@
                })
                &&& match action {
                    Some(a) => is_action(a, *session, t),
                    None => t is Nothing,
                }
            }),
            final(self).wf(),
    {
        let id: u32 = session.session_id;
        let spell: BlindState = match self.blind.get(id) {
            Some(b) => *b,
            None => BlindState { ticks: 0, rewatch_attempted: false },
        };
        let ticks: u32 = spell.ticks + 1;
        self.blind.insert(id, BlindState { ticks, rewatch_attempted: spell.rewatch_attempted });
        if ticks != BLIND_TICKS_BEFORE_ALERT {
            return None;
        }
        if can_rewatch && !spell.rewatch_attempted {
            return Some(TriggerAction::Rewatch { session_id: id });
        }
        Some(TriggerAction::AlertBlind { row: blind_alert(session, ticks) })
    }

    /// Ends the spells of sessions that the tick did not find.
    fn retain_found(&mut self, readings: &Vec<SessionReading>)
        requires
            old(self).wf(),
        ensures
            final(self)@ == (InjectorModel {
                blind: old(self)@.blind.filter(spell_found(readings@)),
                ..old(self)@
            }),
            final(self).wf(),
    {
        let mut todo: SessionMap<BlindState> = SessionMap::new();
        core::mem::swap(&mut todo, &mut self.blind);
        let ghost all = todo@;
        let ghost mut n: int = 0;
        proof {
            reveal(Seq::filter);
            assert(all.skip(0) =~= all);
            assert(all.take(0).filter(spell_found(readings@)) =~= Seq::empty());
        }
        loop
            invariant
                self.wf(),
                self@.pending == old(self)@.pending,
                self@.idle == old(self)@.idle,
                self@.episodes == old(self)@.episodes,
                0 <= n <= all.len(),
                todo.wf(),
                todo@ == all.skip(n),
                all == old(self)@.blind,
                distinct_keys(all),
                self@.blind == all.take(n).filter(spell_found(readings@)),
            decreases all.len() - n,
        {
            let ghost rest = todo@;
            match todo.pop_first() {
                Some((id, b)) => {
                    proof {
                        reveal(Seq::filter);
                        assert(all[n] == rest[0]);
                        assert(rest.drop_first() =~= all.skip(n + 1));
                        assert(all.take(n + 1).drop_last() =~= all.take(n));
                        assert(all.take(n + 1).last() == all[n]);
                        lemma_prefix_lacks(all, n, spell_found(readings@));
                    }
                    if is_found(readings, id) {
                        self.blind.insert(id, b);
                    }
                    proof {
                        n = n + 1;
                    }
                },
                None => {
                    proof {
                        assert(all.take(n) =~= all);
                    }
                    return ;
                },
            }
        }
    }

    /// The repair of a session's transcript watch ended. A new watch gets a whole
    /// spell to bring a reading; a failed repair is alerted.
    pub fn rewatch_finished(&mut self, session: &SessionSnapshot, healed: bool) -> (row: Option<
        AuditRow,
    >)
        requires
            old(self).wf(),
        ensures
            final(self)@ == (match lookup(old(self)@.blind, session.session_id) {
                Some(b) => InjectorModel {
                    blind: put(
                        old(self)@.blind,
                        session.session_id,
                        BlindState {
                            ticks: if healed {
                                0
                            } else {
                                b.ticks
                            },
                            rewatch_attempted: true,
                        },
                    ),
                    ..old(self)@
                },
                None => old(self)@,
            }),
            match row {
                Some(r) => !healed && is_blind_row(r, *session, BLIND_TICKS_BEFORE_ALERT),
                None => healed,
            },
            final(self).wf(),
    {
        let id: u32 = session.session_id;
        let spell: Option<BlindState> = match self.blind.get(id) {
            Some(b) => Some(*b),
            None => None,
        };
        if let Some(b) = spell {
            let ticks: u32 = if healed {
                0
            } else {
                b.ticks
            };
            self.blind.insert(id, BlindState { ticks, rewatch_attempted: true });
        }
        if healed {
            None
        } else {
            Some(blind_alert(session, BLIND_TICKS_BEFORE_ALERT))
        }
    }

    /// The timeout pass: drops the instructions of sessions that left their state,
    /// arms what ran out of time once, and alerts what ran out of time for good.
    /// The alerts of dropped instructions come first, then those of instructions
    /// that stay.
    pub fn timeout_pass(
        &mut self,
        sessions: &Vec<SessionSnapshot>,
        now: u128,
        times: LadderTimes,
    ) -> (alerts: Vec<LadderAlert>)
        requires
            old(self).wf(),
            times.fits(),
        ensures
            final(self)@ == old(self)@.after_timeouts(sessions@, now, times),
            are_alerts(
                alerts@,
                old(self)@.pending.filter(expires(sessions@, now, times))
                    + old(self)@.pending.filter(sticks(sessions@, now, times)),
                now,
                times,
            ),
            final(self).wf(),
    {
        let mut dropped: Vec<LadderAlert> = Vec::new();
        let mut stuck: Vec<LadderAlert> = Vec::new();
        let mut todo: SessionMap<PendingInstruction> = SessionMap::new();
        core::mem::swap(&mut todo, &mut self.pending);
        let ghost all = todo@;
        let ghost keep = survives(sessions@, now, times);
        let ghost out = expires(sessions@, now, times);
        let ghost stick = sticks(sessions@, now, times);
        let ghost mut n: int = 0;
        proof {
            reveal(Seq::filter);
            assert(all.skip(0) =~= all);
            assert(all.take(0) =~= Seq::empty());
            assert(self@.pending =~= all.take(0).filter(keep).map_values(ticked(now, times)));
        }
        loop
            invariant
                self.wf(),
                self@.idle == old(self)@.idle,
                self@.blind == old(self)@.blind,
                self@.episodes == old(self)@.episodes,
                times.fits(),
                0 <= n <= all.len(),
                todo.wf(),
                todo@ == all.skip(n),
                all == old(self)@.pending,
                distinct_keys(all),
                all_wf(all),
                keep == survives(sessions@, now, times),
                out == expires(sessions@, now, times),
                stick == sticks(sessions@, now, times),
                self@.pending == all.take(n).filter(keep).map_values(ticked(now, times)),
                are_alerts(dropped@, all.take(n).filter(out), now, times),
                are_alerts(stuck@, all.take(n).filter(stick), now, times),
            decreases all.len() - n,
        {
            let ghost rest = todo@;
            match todo.pop_first() {
                Some((id, p)) => {
                    proof {
                        reveal(Seq::filter);
                        assert(all[n] == rest[0]);
                        assert(rest.drop_first() =~= all.skip(n + 1));
                        assert(all.take(n + 1).drop_last() =~= all.take(n));
                        assert(all.take(n + 1).last() == all[n]);
                        lemma_prefix_lacks(all, n, keep);
                        lemma_map_lookup(all.take(n).filter(keep), ticked(now, times), id);
                    }
                    let mut p = p;
                    let ghost entry = all[n];
                    let here: bool = match session_state(sessions, id) {
                        Some(state) => state == p.kind.expected_state(),
                        None => false,
                    };
                    if here {
                        let kind = p.kind;
                        let (verdict, row) = tick_instruction(&mut p, id, now, times);
                        let gone: bool = matches!(
                            verdict,
                            TickVerdict::Unacknowledged | TickVerdict::Unwritten
                        );
                        if let Some(row) = row {
                            let alert = LadderAlert { session_id: id, kind, row };
                            assert(is_alert(alert, entry, now, times));
                            if gone {
                                dropped.push(alert);
                            } else {
                                stuck.push(alert);
                            }
                        }
                        if !gone {
                            proof {
                                let done = all.take(n).filter(keep).map_values(ticked(now, times));
                                lemma_put_wf(self@.pending, id, p@);
                                assert(put(done, id, p@) == done.push((id, p@)));
                                assert(all.take(n + 1).filter(keep) == all.take(n).filter(
                                    keep,
                                ).push(entry));
                                assert(all.take(n + 1).filter(keep).map_values(ticked(now, times))
                                    =~= done.push((id, p@)));
                            }
                            self.pending.insert(id, p);
                        }
                    }
                    proof {
                        n = n + 1;
                    }
                },
                None => {
                    proof {
                        assert(all.take(n) =~= all);
                    }
                    let ghost d = dropped@;
                    dropped.append(&mut stuck);
                    return dropped;
                },
            }
        }
    }

    /// The idle pass: types the instruction of every session that is idle right
    /// now, for no further idle signal would come on its own.
    pub fn idle_pass(&mut self, sessions: &Vec<SessionSnapshot>, now: u128) -> (typed: Vec<
        (u32, String),
    >)
        requires
            old(self).wf(),
        ensures
            ({
                let due = old(self)@.pending.filter(types_now(old(self)@.idle, sessions@));
                &&& typed_views(typed@) == texts_of(due)
                &&& final(self)@ == old(self)@.after_idle_pass(sessions@, now)
            }),
            final(self).wf(),
    {
        broadcast use vstd::std_specs::hash::group_hash_axioms;

        let mut typed: Vec<(u32, String)> = Vec::new();
        let mut todo: SessionMap<PendingInstruction> = SessionMap::new();
        core::mem::swap(&mut todo, &mut self.pending);
        let ghost all = todo@;
        let ghost idle = self@.idle;
        let ghost now_due = types_now(idle, sessions@);
        let ghost after = typed_if_due(idle, sessions@, now);
        let ghost mut n: int = 0;
        proof {
            reveal(Seq::filter);
            assert(all.skip(0) =~= all);
            assert(all.take(0) =~= Seq::empty());
            assert(self@.pending =~= all.take(0).map_values(after));
            assert(typed_views(typed@) =~= texts_of(all.take(0).filter(now_due)));
            assert(self@.idle =~= idle.difference(ids_of(all.take(0).filter(now_due))));
        }
        loop
            invariant
                self.wf(),
                self@.blind == old(self)@.blind,
                self@.episodes == old(self)@.episodes,
                0 <= n <= all.len(),
                todo.wf(),
                todo@ == all.skip(n),
                all == old(self)@.pending,
                idle == old(self)@.idle,
                distinct_keys(all),
                all_wf(all),
                now_due == types_now(idle, sessions@),
                after == typed_if_due(idle, sessions@, now),
                self@.pending == all.take(n).map_values(after),
                typed_views(typed@) == texts_of(all.take(n).filter(now_due)),
                self@.idle == idle.difference(ids_of(all.take(n).filter(now_due))),
            decreases all.len() - n,
        {
            let ghost rest = todo@;
            match todo.pop_first() {
                Some((id, p)) => {
                    let ghost entry = all[n];
                    let ghost due_before = all.take(n).filter(now_due);
                    proof {
                        reveal(Seq::filter);
                        assert(all[n] == rest[0]);
                        assert(rest.drop_first() =~= all.skip(n + 1));
                        assert(all.take(n + 1).drop_last() =~= all.take(n));
                        assert(all.take(n + 1).last() == all[n]);
                        lemma_prefix_lacks(all, n, now_due);
                        lemma_take_lacks(all, n);
                        lemma_map_lookup(all.take(n), after, id);
                        assert(!ids_of(due_before).contains(id));
                    }
                    let mut p = p;
                    let due: bool = if self.idle_now.contains(&id) {
                        match session_state(sessions, id) {
                            Some(state) => should_inject_on_idle(
                                state,
                                p.kind.expected_state(),
                                p.acked,
                                p.attempts,
                                p.awaiting_retry,
                            ),
                            None => false,
                        }
                    } else {
                        false
                    };
                    assert(due == now_due(entry));
                    if due {
                        p.attempts = p.attempts + 1;
                        p.injected_at = Some(now);
                        p.awaiting_retry = false;
                        p.stuck_alerted = false;
                        let text = p.instruction.clone();
                        let ghost views = typed_views(typed@);
                        typed.push((id, text));
                        self.idle_now.remove(&id);
                        proof {
                            assert(typed_views(typed@) =~= views.push((id, text@)));
                            assert(texts_of(due_before.push(entry)) =~= texts_of(due_before).push(
                                (id, text@),
                            ));
                            crate::table::lemma_lookup_push(due_before, entry);
                            assert(self@.idle =~= idle.difference(ids_of(due_before.push(entry))));
                        }
                    }
                    proof {
                        let done = all.take(n).map_values(after);
                        lemma_put_wf(self@.pending, id, p@);
                        assert(put(done, id, p@) == done.push((id, p@)));
                        assert(all.take(n + 1).map_values(after) =~= done.push((id, p@)));
                    }
                    self.pending.insert(id, p);
                    proof {
                        n = n + 1;
                    }
                },
                None => {
                    proof {
                        assert(all.take(n) =~= all);
                    }
                    return typed;
                },
            }
        }
    }
}

/// The alert that a session has been blind for `ticks` ticks.
fn blind_alert(session: &SessionSnapshot, ticks: u32) -> (row: AuditRow)
    ensures
        is_blind_row(row, *session, ticks),
{
    AuditRow {
        project: session.project.clone(),
        epic: session.epic.clone(),
        event: AuditEventKind::Alert,
        generation: session.generation,
        session_id: session.session_id,
        details: AuditDetails::ContextBlind { ticks },
    }
}

/// Whether a session is among those that the tick found.
fn is_found(readings: &Vec<SessionReading>, id: u32) -> (r: bool)
    ensures
        r == found(readings@, id),
{
    let mut i: usize = 0;
    while i < readings.len()
        invariant
            i <= readings.len(),
            forall|j: int| 0 <= j < i ==> (#[trigger] readings@[j]).session.session_id != id,
        decreases readings.len() - i,
    {
        if readings[i].session.session_id == id {
            return true;
        }
        i = i + 1;
    }
    false
}

proof fn lemma_actions_push(
    actions: Seq<TriggerAction>,
    readings: Seq<SessionReading>,
    due: Seq<(int, Trigger)>,
    action: TriggerAction,
    k: int,
    t: Trigger,
)
    requires
        are_actions(actions, readings, due),
        0 <= k < readings.len(),
        is_action(action, readings[k].session, t),
    ensures
        are_actions(actions.push(action), readings, due.push((k, t))),
{
    let all = actions.push(action);
    let asked = due.push((k, t));
    assert forall|i: int| #![trigger all[i]] #![trigger asked[i]]
        0 <= i < asked.len() implies 0 <= asked[i].0 < readings.len()
        && is_action(all[i], readings[asked[i].0].session, asked[i].1) by {
        if i < due.len() {
            assert(all[i] == actions[i]);
            assert(asked[i] == due[i]);
        }
    }
}

proof fn lemma_spell_wf(blind: Seq<(u32, BlindState)>, id: u32)
    requires
        distinct_keys(blind),
    ensures
        distinct_keys(without(blind, id)),
{
    lemma_without(blind, id);
}

/// A change of the values leaves the ids alone.
proof fn lemma_map_lookup(
    s: Seq<(u32, PendingModel)>,
    f: spec_fn((u32, PendingModel)) -> (u32, PendingModel),
    id: u32,
)
    requires
        lookup(s, id) is None,
        forall|e: (u32, PendingModel)| (#[trigger] f(e)).0 == e.0,
    ensures
        lookup(s.map_values(f), id) is None,
{
    lemma_lookup(s, id);
    lemma_lookup(s.map_values(f), id);
    let t = s.map_values(f);
    if lookup(t, id) is Some {
        let i = choose|i: int|
            0 <= i < t.len() && (#[trigger] t[i]).0 == id && lookup(t, id) == Some(t[i].1);
        assert(t[i] == f(s[i]));
        assert(s[i].0 != id);
    }
}

} // verus!
