//! What one tick does about every session, in terms of what it finds.

use vstd::prelude::*;
use crate::audit::{AuditDetails, AuditEventKind, AuditRow, StuckWait};
use crate::brief_laws::lemma_stands_last;
use crate::decimal::decimal;
use crate::injector::{
    are_actions, are_alerts, blind_steps, completion_state, expires, found, is_acked_row, is_action,
    is_alert, is_blind_row, spell_found, spell_of, state_in, sticks, texts_of, trigger_of, triggers,
    types_now, BlindState, InjectorModel, LadderAlert, SessionReading, TriggerAction,
};
use crate::ladder::{brief_text, corrective_text, PendingKind};
use crate::parker_laws::listed_once;
use crate::pending::{
    duration_text, elapsed_since, elapsed_since_opt, handoff_due, idle_signal, injects_on_idle,
    is_ack_timeout_row, is_invalid_row, is_tick_row, late_written_text, timeout_verdict_of,
    written_verdict_of, LadderTimes, PendingModel, TickVerdict, TimeoutVerdict, WrittenVerdict,
};
use crate::sequence_laws::{lemma_idle_pass, lemma_timeouts};
use crate::session::{AgentEvent, SessionSnapshot, SupervisorState};
use crate::table::{
    distinct_keys, lemma_filter_distinct, lemma_lookup, lemma_put, lemma_without, lookup, put,
};
use crate::words::contains;

verus! {

// ---------------------------------------------------------------------------
// Listings
// ---------------------------------------------------------------------------

/// The state of a session is that of its entry in the listing, wherever that stands; a
/// session that is not listed has none.
pub proof fn law_the_state_of_a_listed_session(sessions: Seq<SessionSnapshot>, id: u32)
    requires
        listed_once(sessions),
    ensures
        forall|k: int|
            0 <= k < sessions.len() && (#[trigger] sessions[k]).session_id == id ==> state_in(
                sessions,
                id,
            ) == Some(sessions[k].state),
        (forall|k: int| 0 <= k < sessions.len() ==> (#[trigger] sessions[k]).session_id != id)
            ==> state_in(sessions, id) is None,
    decreases sessions.len(),
{
    if sessions.len() > 0 {
        let rest = sessions.drop_first();
        assert forall|i: int, j: int| 0 <= i < j < rest.len() implies (
        #[trigger] rest[i]).session_id != (#[trigger] rest[j]).session_id by {
            assert(sessions[i + 1].session_id != sessions[j + 1].session_id);
        }
        law_the_state_of_a_listed_session(rest, id);
        assert forall|k: int|
            0 <= k < sessions.len() && (#[trigger] sessions[k]).session_id == id implies state_in(
            sessions,
            id,
        ) == Some(sessions[k].state) by {
            if k > 0 {
                assert(sessions[0].session_id != sessions[k].session_id);
                assert(rest[k - 1] == sessions[k]);
            }
        }
        if forall|k: int| 0 <= k < sessions.len() ==> (#[trigger] sessions[k]).session_id != id {
            assert(sessions[0].session_id != id);
            assert forall|k: int| 0 <= k < rest.len() implies (#[trigger] rest[k]).session_id
                != id by {
                assert(rest[k] == sessions[k + 1]);
            }
        }
    }
}

/// A handoff is followed in a session that is asked to hand off, a park in one that is
/// asked to park, the other two in a session that works. A validated handoff leaves its
/// session with the handoff written, a validated park leaves it parked; the others are
/// never validated.
pub proof fn law_where_an_instruction_belongs(kind: PendingKind)
    ensures
        kind.home() == (match kind {
            PendingKind::Handoff => SupervisorState::HandoffRequested,
            PendingKind::Park => SupervisorState::ParkRequested,
            PendingKind::SoftWinddown => SupervisorState::Working,
            PendingKind::WinddownAllClear => SupervisorState::Working,
        }),
        completion_state(kind) == (match kind {
            PendingKind::Handoff => Some(SupervisorState::HandoffWritten),
            PendingKind::Park => Some(SupervisorState::Parked),
            PendingKind::SoftWinddown => None,
            PendingKind::WinddownAllClear => None,
        }),
        kind.ack_only() <==> completion_state(kind) is None,
{
}

// ---------------------------------------------------------------------------
// The trigger pass
// ---------------------------------------------------------------------------

/// No session is read twice.
pub open spec fn read_once(readings: Seq<SessionReading>) -> bool {
    forall|i: int, j: int|
        0 <= i < j < readings.len() ==> (#[trigger] readings[i]).session.session_id != (
        #[trigger] readings[j]).session.session_id
}

/// The session works and its context reading is at or past the threshold: that of its run,
/// or the common one where its run has none.
pub open spec fn is_full(reading: SessionReading, global: u64) -> bool {
    &&& reading.session.state == SupervisorState::Working
    &&& reading.percent matches Some(p) && p >= (match reading.threshold {
        Some(t) => t,
        None => global,
    })
}

/// The session works and has no context reading.
pub open spec fn is_unread(reading: SessionReading) -> bool {
    reading.session.state == SupervisorState::Working && reading.percent is None
}

/// How many ticks in a row the session was without a reading before this one.
pub open spec fn ticks_before(blind: Seq<(u32, BlindState)>, id: u32) -> u32 {
    match lookup(blind, id) {
        Some(b) => b.ticks,
        None => 0,
    }
}

/// The repair of the session's watch was tried in this spell.
pub open spec fn repaired_before(blind: Seq<(u32, BlindState)>, id: u32) -> bool {
    match lookup(blind, id) {
        Some(b) => b.rewatch_attempted,
        None => false,
    }
}

/// One of the actions asks for the session's handoff.
pub open spec fn hands_off(actions: Seq<TriggerAction>, id: u32) -> bool {
    exists|i: int|
        0 <= i < actions.len() && #[trigger] actions[i] == (TriggerAction::RequestHandoff {
            session_id: id,
        })
}

/// One of the actions asks for the repair of the session's watch.
pub open spec fn rewatches(actions: Seq<TriggerAction>, id: u32) -> bool {
    exists|i: int|
        0 <= i < actions.len() && #[trigger] actions[i] == (TriggerAction::Rewatch {
            session_id: id,
        })
}

/// One of the actions is the alert that the session is without readings.
pub open spec fn alerts_blind(actions: Seq<TriggerAction>, id: u32) -> bool {
    exists|i: int|
        0 <= i < actions.len() && ((#[trigger] actions[i]) matches TriggerAction::AlertBlind {
            row,
        } && row.session_id == id)
}

/// The spells after the pass, before those of sessions that are gone end.
proof fn lemma_spells(blind: Seq<(u32, BlindState)>, readings: Seq<SessionReading>)
    requires
        distinct_keys(blind),
        read_once(readings),
    ensures
        ({
            let after = blind_steps(blind, readings);
            &&& distinct_keys(after)
            &&& forall|id: u32|
                !found(readings, id) ==> #[trigger] lookup(after, id) == lookup(blind, id)
            &&& forall|k: int|
                0 <= k < readings.len() ==> lookup(
                    after,
                    (#[trigger] readings[k]).session.session_id,
                ) == (if is_unread(readings[k]) {
                    Some(
                        BlindState {
                            ticks: (ticks_before(blind, readings[k].session.session_id)
                                + 1) as u32,
                            rewatch_attempted: repaired_before(
                                blind,
                                readings[k].session.session_id,
                            ),
                        },
                    )
                } else {
                    None
                })
        }),
    decreases readings.len(),
{
    let after = blind_steps(blind, readings);
    if readings.len() > 0 {
        let init = readings.drop_last();
        let last = readings.len() - 1;
        let r = readings.last();
        let id = r.session.session_id;
        let before = blind_steps(blind, init);
        assert(readings[last] == r);
        assert(read_once(init));
        lemma_spells(blind, init);
        assert(!found(init, id)) by {
            if found(init, id) {
                let k = choose|k: int|
                    0 <= k < init.len() && (#[trigger] init[k]).session.session_id == id;
                assert(readings[k].session.session_id != readings[last].session.session_id);
            }
        }
        let spell = BlindState {
            ticks: (spell_of(before, id).ticks + 1) as u32,
            ..spell_of(before, id)
        };
        lemma_put(before, id, spell);
        lemma_without(before, id);
        assert forall|other: u32| !found(readings, other) implies #[trigger] lookup(after, other)
            == lookup(blind, other) by {
            if found(init, other) {
                let k = choose|k: int|
                    0 <= k < init.len() && (#[trigger] init[k]).session.session_id == other;
                assert(readings[k].session.session_id == other);
            }
            assert(readings[last].session.session_id != other) by {
                if readings[last].session.session_id == other {
                    assert(found(readings, other));
                }
            }
            assert(lookup(before, other) == lookup(blind, other));
        }
        assert forall|k: int| 0 <= k < readings.len() implies lookup(
            after,
            (#[trigger] readings[k]).session.session_id,
        ) == (if is_unread(readings[k]) {
            Some(
                BlindState {
                    ticks: (ticks_before(blind, readings[k].session.session_id) + 1) as u32,
                    rewatch_attempted: repaired_before(blind, readings[k].session.session_id),
                },
            )
        } else {
            None
        }) by {
            if k < last {
                assert(init[k] == readings[k]);
                assert(readings[k].session.session_id != readings[last].session.session_id);
            }
        }
    }
}

/// What is asked about one session does not depend on the others.
proof fn lemma_asked(
    blind: Seq<(u32, BlindState)>,
    readings: Seq<SessionReading>,
    global: u64,
    can_rewatch: bool,
)
    requires
        distinct_keys(blind),
        read_once(readings),
    ensures
        ({
            let due = triggers(blind, readings, global, can_rewatch);
            &&& forall|j: int|
                0 <= j < due.len() ==> 0 <= (#[trigger] due[j]).0 < readings.len() && due[j].1
                    == trigger_of(blind, readings[due[j].0], global, can_rewatch) && !(
                due[j].1 is Nothing)
            &&& forall|k: int|
                0 <= k < readings.len() && !(trigger_of(
                    blind,
                    #[trigger] readings[k],
                    global,
                    can_rewatch,
                ) is Nothing) ==> exists|j: int| 0 <= j < due.len() && (#[trigger] due[j]).0 == k
        }),
    decreases readings.len(),
{
    let due = triggers(blind, readings, global, can_rewatch);
    if readings.len() > 0 {
        let init = readings.drop_last();
        let last = readings.len() - 1;
        let r = readings.last();
        let id = r.session.session_id;
        assert(readings[last] == r);
        assert(read_once(init));
        lemma_asked(blind, init, global, can_rewatch);
        lemma_spells(blind, init);
        assert(!found(init, id)) by {
            if found(init, id) {
                let k = choose|k: int|
                    0 <= k < init.len() && (#[trigger] init[k]).session.session_id == id;
                assert(readings[k].session.session_id != readings[last].session.session_id);
            }
        }
        assert(lookup(blind_steps(blind, init), id) == lookup(blind, id));
        let before = triggers(blind, init, global, can_rewatch);
        let t = trigger_of(blind, r, global, can_rewatch);
        assert(t == trigger_of(blind_steps(blind, init), r, global, can_rewatch));
        assert forall|j: int| 0 <= j < due.len() implies 0 <= (#[trigger] due[j]).0
            < readings.len() && due[j].1 == trigger_of(
            blind,
            readings[due[j].0],
            global,
            can_rewatch,
        ) && !(due[j].1 is Nothing) by {
            if j < before.len() {
                assert(due[j] == before[j]);
                assert(init[before[j].0] == readings[before[j].0]);
            }
        }
        assert forall|k: int|
            0 <= k < readings.len() && !(trigger_of(
                blind,
                #[trigger] readings[k],
                global,
                can_rewatch,
            ) is Nothing) implies exists|j: int| 0 <= j < due.len() && (#[trigger] due[j]).0
            == k by {
            if k < last {
                assert(init[k] == readings[k]);
                let j = choose|j: int| 0 <= j < before.len() && (#[trigger] before[j]).0 == k;
                assert(due[j] == before[j]);
            } else {
                assert(due[before.len() as int].0 == k);
            }
        }
    }
}

/// Every session that works and whose reading is at or past its threshold is asked to hand
/// off, wherever it stands among the readings; no other session is.
pub proof fn law_every_full_session_hands_off(
    blind: Seq<(u32, BlindState)>,
    readings: Seq<SessionReading>,
    global: u64,
    can_rewatch: bool,
    actions: Seq<TriggerAction>,
)
    requires
        distinct_keys(blind),
        read_once(readings),
        are_actions(actions, readings, triggers(blind, readings, global, can_rewatch)),
    ensures
        forall|k: int|
            0 <= k < readings.len() && is_full(#[trigger] readings[k], global) ==> hands_off(
                actions,
                readings[k].session.session_id,
            ),
        forall|id: u32| #[trigger]
            hands_off(actions, id) ==> exists|k: int|
                0 <= k < readings.len() && is_full(#[trigger] readings[k], global)
                    && readings[k].session.session_id == id,
{
    let due = triggers(blind, readings, global, can_rewatch);
    lemma_asked(blind, readings, global, can_rewatch);
    assert forall|k: int|
        0 <= k < readings.len() && is_full(#[trigger] readings[k], global) implies hands_off(
        actions,
        readings[k].session.session_id,
    ) by {
        let j = choose|j: int| 0 <= j < due.len() && (#[trigger] due[j]).0 == k;
        assert(is_action(actions[j], readings[due[j].0].session, due[j].1));
    }
    assert forall|id: u32| #[trigger] hands_off(actions, id) implies exists|k: int|
        0 <= k < readings.len() && is_full(#[trigger] readings[k], global)
            && readings[k].session.session_id == id by {
        let i = choose|i: int|
            0 <= i < actions.len() && #[trigger] actions[i] == (TriggerAction::RequestHandoff {
                session_id: id,
            });
        assert(is_action(actions[i], readings[due[i].0].session, due[i].1));
        assert(is_full(readings[due[i].0], global));
    }
}

/// A working session without a context reading is noticed at the tenth tick in a row, not
/// before and not again: its watch is repaired once, where that can be; otherwise it is
/// alerted.
pub proof fn law_the_tenth_blind_tick_is_noticed(
    blind: Seq<(u32, BlindState)>,
    readings: Seq<SessionReading>,
    global: u64,
    can_rewatch: bool,
    actions: Seq<TriggerAction>,
    k: int,
)
    requires
        distinct_keys(blind),
        read_once(readings),
        are_actions(actions, readings, triggers(blind, readings, global, can_rewatch)),
        0 <= k < readings.len(),
    ensures
        ({
            let id = readings[k].session.session_id;
            let tenth = is_unread(readings[k]) && ticks_before(blind, id) == 9;
            &&& rewatches(actions, id) <==> tenth && can_rewatch && !repaired_before(blind, id)
            &&& alerts_blind(actions, id) <==> tenth && !(can_rewatch && !repaired_before(
                blind,
                id,
            ))
        }),
{
    let due = triggers(blind, readings, global, can_rewatch);
    let id = readings[k].session.session_id;
    lemma_asked(blind, readings, global, can_rewatch);
    let t = trigger_of(blind, readings[k], global, can_rewatch);
    if !(t is Nothing) {
        let j = choose|j: int| 0 <= j < due.len() && (#[trigger] due[j]).0 == k;
        assert(is_action(actions[j], readings[due[j].0].session, due[j].1));
        if t is Rewatch {
            assert(rewatches(actions, id));
        }
        if t is Blind {
            assert(alerts_blind(actions, id));
        }
    }
    if rewatches(actions, id) {
        let i = choose|i: int|
            0 <= i < actions.len() && #[trigger] actions[i] == (TriggerAction::Rewatch {
                session_id: id,
            });
        assert(is_action(actions[i], readings[due[i].0].session, due[i].1));
        lemma_same_reading(readings, due[i].0, k);
    }
    if alerts_blind(actions, id) {
        let i = choose|i: int|
            0 <= i < actions.len() && ((#[trigger] actions[i]) matches TriggerAction::AlertBlind {
                row,
            } && row.session_id == id);
        assert(is_action(actions[i], readings[due[i].0].session, due[i].1));
        lemma_same_reading(readings, due[i].0, k);
    }
}

proof fn lemma_same_reading(readings: Seq<SessionReading>, i: int, j: int)
    requires
        read_once(readings),
        0 <= i < readings.len(),
        0 <= j < readings.len(),
        readings[i].session.session_id == readings[j].session.session_id,
    ensures
        i == j,
{
    if i < j {
        assert(readings[i].session.session_id != readings[j].session.session_id);
    } else if j < i {
        assert(readings[j].session.session_id != readings[i].session.session_id);
    }
}

/// A spell counts one more tick for every working session without a reading; a reading, or
/// any other state, ends it, and so does the session being gone.
pub proof fn law_how_spells_are_counted(
    blind: Seq<(u32, BlindState)>,
    readings: Seq<SessionReading>,
)
    requires
        distinct_keys(blind),
        read_once(readings),
    ensures
        ({
            let after = blind_steps(blind, readings).filter(spell_found(readings));
            &&& forall|k: int|
                0 <= k < readings.len() && is_unread(#[trigger] readings[k]) ==> lookup(
                    after,
                    readings[k].session.session_id,
                ) == Some(
                    BlindState {
                        ticks: (ticks_before(blind, readings[k].session.session_id) + 1) as u32,
                        rewatch_attempted: repaired_before(
                            blind,
                            readings[k].session.session_id,
                        ),
                    },
                )
            &&& forall|k: int|
                0 <= k < readings.len() && !is_unread(#[trigger] readings[k]) ==> lookup(
                    after,
                    readings[k].session.session_id,
                ) is None
            &&& forall|id: u32|
                (forall|k: int|
                    0 <= k < readings.len() ==> (#[trigger] readings[k]).session.session_id != id)
                    ==> #[trigger] lookup(after, id) is None
        }),
{
    lemma_spells(blind, readings);
    let steps = blind_steps(blind, readings);
    let after = steps.filter(spell_found(readings));
    lemma_filter_distinct(steps, spell_found(readings));
    assert forall|k: int| 0 <= k < readings.len() implies found(
        readings,
        (#[trigger] readings[k]).session.session_id,
    ) by {}
    assert forall|id: u32|
        (forall|k: int|
            0 <= k < readings.len() ==> (#[trigger] readings[k]).session.session_id != id)
        implies #[trigger] lookup(after, id) is None by {
        assert(!found(readings, id));
        lemma_lookup(after, id);
    }
}

// ---------------------------------------------------------------------------
// The timeout pass
// ---------------------------------------------------------------------------

/// More than so many seconds have passed since `at`.
pub open spec fn is_past(now: u128, at: u128, secs: int) -> bool {
    now - at > secs * 1_000_000_000
}

/// What a tick does with an instruction, in seconds: an instruction that was typed may wait
/// for its acknowledgement as long as the window, before it is retried, and once more
/// before it is given up. One that waits for an idle signal is alerted after the longest
/// turn, an armed retry after three windows. An acknowledged one has three windows to be
/// written, and so has its corrective round. At each bound nothing happens yet.
pub proof fn law_what_a_tick_does(p: PendingModel, now: u128, times: LadderTimes)
    requires
        p.wf(),
        times.fits(),
        p.injected_at matches Some(t) ==> t <= now,
        p.acked_at matches Some(t) ==> t <= now,
        p.waiting_since <= now,
    ensures
        ({
            let window = times.ack_timeout_secs as int;
            let verdict = p.tick_verdict(now, times);
            if p.acked {
                let late = !p.validating && is_past(now, p.acked_at->0, window * 3);
                &&& verdict is Correct <==> late && !p.corrective
                &&& verdict is Unwritten <==> late && p.corrective
                &&& verdict is Keep <==> !late
            } else if p.awaiting_retry {
                let late = is_past(now, p.waiting_since, window * 3);
                &&& verdict is Stuck <==> late && !p.stuck_alerted
                &&& verdict is Keep <==> !late || p.stuck_alerted
            } else if p.attempts == 0 {
                let late = is_past(now, p.waiting_since, times.max_turn_wait_secs as int);
                &&& verdict is Stuck <==> late && !p.stuck_alerted
                &&& verdict is Keep <==> !late || p.stuck_alerted
            } else {
                let late = is_past(now, p.injected_at->0, window);
                &&& verdict is ArmRetry <==> late && p.attempts == 1
                &&& verdict is Unacknowledged <==> late && p.attempts == 2
                &&& verdict is Keep <==> !late
            }
        }),
{
    assert(times.timeout() == times.ack_timeout_secs * 1_000_000_000);
    assert(times.max_turn_wait() == times.max_turn_wait_secs * 1_000_000_000);
    assert(times.written_window() == times.ack_timeout_secs * 3 * 1_000_000_000);
}

/// What a tick changes in an instruction that it does not drop.
pub proof fn law_what_a_tick_changes(p: PendingModel, now: u128, times: LadderTimes)
    ensures
        match p.tick_verdict(now, times) {
            TickVerdict::ArmRetry => p.after_tick(now, times) == (PendingModel {
                awaiting_retry: true,
                waiting_since: now,
                ..p
            }),
            TickVerdict::Stuck => p.after_tick(now, times) == (PendingModel {
                stuck_alerted: true,
                ..p
            }),
            TickVerdict::Correct => p.after_tick(now, times) == (PendingModel {
                instruction: corrective_text(
                    p.kind,
                    p.epic,
                    p.generation,
                    late_written_text(times),
                    p.episode,
                ),
                attempts: 1,
                awaiting_retry: true,
                waiting_since: now,
                acked: false,
                acked_at: None,
                validating: false,
                corrective: true,
                failure: Some(late_written_text(times)),
                ..p
            }),
            _ => p.after_tick(now, times) == p,
        },
        p.tick_verdict(now, times).drops() <==> (p.tick_verdict(now, times) is Unacknowledged
            || p.tick_verdict(now, times) is Unwritten),
{
}

/// After the timeout pass every instruction whose session is listed in the state where the
/// instruction belongs is as the tick leaves it, unless it ran out of time for good; every
/// other one is gone, wherever its session stands in the listing.
pub proof fn law_a_tick_reaches_every_instruction(
    m: InjectorModel,
    sessions: Seq<SessionSnapshot>,
    now: u128,
    times: LadderTimes,
    id: u32,
    p: PendingModel,
)
    requires
        m.wf(),
        times.fits(),
        listed_once(sessions),
        lookup(m.pending, id) == Some(p),
    ensures
        ({
            let after = m.after_timeouts(sessions, now, times);
            let verdict = p.tick_verdict(now, times);
            let at_home = exists|k: int|
                0 <= k < sessions.len() && (#[trigger] sessions[k]).session_id == id
                    && sessions[k].state == p.kind.home();
            &&& at_home && !(verdict is Unacknowledged) && !(verdict is Unwritten) ==> lookup(
                after.pending,
                id,
            ) == Some(p.after_tick(now, times))
            &&& !at_home || verdict is Unacknowledged || verdict is Unwritten ==> lookup(
                after.pending,
                id,
            ) is None
            &&& after.idle == m.idle
            &&& after.blind == m.blind
            &&& after.episodes == m.episodes
        }),
{
    lemma_timeouts(m, sessions, now, times);
    lemma_at_home(sessions, id, p.kind.home());
    assert(lookup(m.after_timeouts(sessions, now, times).pending, id) == (if state_in(sessions, id)
        == Some(p.kind.home()) && !p.tick_verdict(now, times).drops() {
        Some(p.after_tick(now, times))
    } else {
        None
    }));
}

proof fn lemma_at_home(sessions: Seq<SessionSnapshot>, id: u32, home: SupervisorState)
    requires
        listed_once(sessions),
    ensures
        state_in(sessions, id) == Some(home) <==> exists|k: int|
            0 <= k < sessions.len() && (#[trigger] sessions[k]).session_id == id
                && sessions[k].state == home,
{
    law_the_state_of_a_listed_session(sessions, id);
    if exists|k: int| 0 <= k < sessions.len() && (#[trigger] sessions[k]).session_id == id {
        let k = choose|k: int|
            0 <= k < sessions.len() && (#[trigger] sessions[k]).session_id == id;
        assert(state_in(sessions, id) == Some(sessions[k].state));
    }
}

/// One of the alerts is about the session's instruction.
pub open spec fn alerts_about(alerts: Seq<LadderAlert>, id: u32, kind: PendingKind) -> bool {
    exists|i: int|
        0 <= i < alerts.len() && (#[trigger] alerts[i]).session_id == id && alerts[i].kind == kind
            && alerts[i].row.session_id == id
}

/// The timeout pass alerts every instruction that it gives up and every one whose wait ran
/// out, where the session is listed in the state where the instruction belongs, wherever
/// it stands in the listing.
pub proof fn law_every_lost_instruction_is_alerted(
    m: InjectorModel,
    sessions: Seq<SessionSnapshot>,
    now: u128,
    times: LadderTimes,
    alerts: Seq<LadderAlert>,
    id: u32,
    p: PendingModel,
)
    requires
        m.wf(),
        listed_once(sessions),
        are_alerts(
            alerts,
            m.pending.filter(expires(sessions, now, times)) + m.pending.filter(
                sticks(sessions, now, times),
            ),
            now,
            times,
        ),
        lookup(m.pending, id) == Some(p),
        exists|k: int|
            0 <= k < sessions.len() && (#[trigger] sessions[k]).session_id == id
                && sessions[k].state == p.kind.home(),
        p.tick_verdict(now, times) is Unacknowledged || p.tick_verdict(now, times) is Unwritten
            || p.tick_verdict(now, times) is Stuck,
    ensures
        alerts_about(alerts, id, p.kind),
{
    lemma_at_home(sessions, id, p.kind.home());
    let out = m.pending.filter(expires(sessions, now, times));
    let stuck = m.pending.filter(sticks(sessions, now, times));
    let all = out + stuck;
    lemma_filter_distinct(m.pending, expires(sessions, now, times));
    lemma_filter_distinct(m.pending, sticks(sessions, now, times));
    if p.tick_verdict(now, times) is Stuck {
        assert(lookup(stuck, id) == Some(p));
        lemma_lookup(stuck, id);
        let i = choose|i: int|
            0 <= i < stuck.len() && (#[trigger] stuck[i]).0 == id && lookup(stuck, id) == Some(
                stuck[i].1,
            );
        assert(all[out.len() + i] == stuck[i]);
        assert(is_alert(alerts[out.len() + i], all[out.len() + i], now, times));
    } else {
        assert(lookup(out, id) == Some(p));
        lemma_lookup(out, id);
        let i = choose|i: int|
            0 <= i < out.len() && (#[trigger] out[i]).0 == id && lookup(out, id) == Some(out[i].1);
        assert(all[i] == out[i]);
        assert(is_alert(alerts[i], all[i], now, times));
    }
}

// ---------------------------------------------------------------------------
// The idle pass
// ---------------------------------------------------------------------------

/// The instruction is typed once its session is idle where it belongs: it waits for its
/// first delivery, or its second was armed.
pub open spec fn awaits_idle(p: PendingModel) -> bool {
    !p.acked && (p.attempts == 0 || (p.attempts == 1 && p.awaiting_retry))
}

/// The idle pass types the instruction of every session that is idle and listed in the
/// state where the instruction belongs, wherever it stands, if the instruction waits for an
/// idle signal; the session works again then. Every other instruction stays as it was.
pub proof fn law_the_idle_pass_types_whatever_is_due(
    m: InjectorModel,
    sessions: Seq<SessionSnapshot>,
    now: u128,
    id: u32,
    p: PendingModel,
)
    requires
        m.wf(),
        listed_once(sessions),
        lookup(m.pending, id) == Some(p),
    ensures
        ({
            let after = m.after_idle_pass(sessions, now);
            let texts = texts_of(m.pending.filter(types_now(m.idle, sessions)));
            let at_home = exists|k: int|
                0 <= k < sessions.len() && (#[trigger] sessions[k]).session_id == id
                    && sessions[k].state == p.kind.home();
            if m.idle.contains(id) && at_home && awaits_idle(p) {
                &&& texts.contains((id, p.instruction))
                &&& lookup(after.pending, id) == Some(
                    PendingModel {
                        attempts: (p.attempts + 1) as u8,
                        injected_at: Some(now),
                        awaiting_retry: false,
                        stuck_alerted: false,
                        ..p
                    },
                )
                &&& !after.idle.contains(id)
            } else {
                &&& forall|text: Seq<char>| !#[trigger] texts.contains((id, text))
                &&& lookup(after.pending, id) == Some(p)
                &&& after.idle.contains(id) == m.idle.contains(id)
            }
        }),
{
    lemma_idle_pass(m, sessions, now);
    lemma_at_home(sessions, id, p.kind.home());
    let pick = types_now(m.idle, sessions);
    let due = m.pending.filter(pick);
    let texts = texts_of(due);
    lemma_filter_distinct(m.pending, pick);
    lemma_lookup(due, id);
    let after = m.after_idle_pass(sessions, now);
    assert(lookup(after.pending, id) == Some(
        if pick((id, p)) {
            p.typed(now)
        } else {
            p
        },
    ));
    if pick((id, p)) {
        assert(lookup(due, id) == Some(p));
        let i = choose|i: int|
            0 <= i < due.len() && (#[trigger] due[i]).0 == id && lookup(due, id) == Some(due[i].1);
        assert(texts[i] == (id, p.instruction));
    } else {
        assert(lookup(due, id) is None);
        assert forall|text: Seq<char>| !#[trigger] texts.contains((id, text)) by {
            if texts.contains((id, text)) {
                let i = choose|i: int| 0 <= i < texts.len() && texts[i] == (id, text);
                assert(due[i].0 == id);
            }
        }
    }
}

// ---------------------------------------------------------------------------
// Signals and arming
// ---------------------------------------------------------------------------

/// A session is idle from a Stop until it starts, calls a tool, gets a prompt or ends
/// otherwise. A reply changes nothing, and no event changes another session.
pub proof fn law_what_an_event_says_of_idleness(m: InjectorModel, event: AgentEvent, other: u32)
    ensures
        ({
            let after = m.after_signal(event);
            &&& after.pending == m.pending
            &&& after.blind == m.blind
            &&& after.episodes == m.episodes
            &&& match event {
                AgentEvent::SessionEnded { session_id, reason } => after.idle.contains(session_id)
                    <==> reason@ == "stop"@,
                AgentEvent::SessionStarted { session_id } => !after.idle.contains(session_id),
                AgentEvent::ToolUseStarted { session_id } => !after.idle.contains(session_id),
                AgentEvent::UserMessage { session_id } => !after.idle.contains(session_id),
                _ => after.idle == m.idle,
            }
            &&& (idle_signal(event) matches Some(s) ==> s.0 != other) ==> after.idle.contains(other)
                == m.idle.contains(other)
        }),
{
}

/// An instruction that is armed for an idle session in the state where it belongs is typed
/// at once; otherwise it waits, as it was armed. Nothing of another session changes.
pub proof fn law_an_idle_session_is_typed_to_at_once(
    m: InjectorModel,
    id: u32,
    p: PendingModel,
    state: Option<SupervisorState>,
    now: u128,
    other: u32,
)
    requires
        m.wf(),
        !p.acked,
        p.attempts == 0,
    ensures
        ({
            let after = m.after_arming(id, p, state, now);
            let typed = m.typed_on_arming(id, p, state);
            &&& if m.idle.contains(id) && state == Some(p.kind.home()) {
                &&& typed == Some(p.instruction)
                &&& lookup(after.pending, id) == Some(
                    PendingModel {
                        attempts: 1,
                        injected_at: Some(now),
                        awaiting_retry: false,
                        stuck_alerted: false,
                        ..p
                    },
                )
                &&& !after.idle.contains(id)
            } else {
                &&& typed is None
                &&& lookup(after.pending, id) == Some(p)
                &&& after.idle.contains(id) == m.idle.contains(id)
            }
            &&& other != id ==> lookup(after.pending, other) == lookup(m.pending, other)
                && after.idle.contains(other) == m.idle.contains(other)
            &&& after.blind == m.blind
            &&& after.episodes == m.episodes
        }),
{
    lemma_put(m.pending, id, p);
    lemma_put(put(m.pending, id, p), id, p.typed(now));
}

/// An instruction begins with its text, for its session's run and generation, untyped and
/// unanswered.
pub proof fn law_how_an_instruction_begins(
    kind: PendingKind,
    session: SessionSnapshot,
    instruction: Seq<char>,
    episode: u32,
    now: u128,
)
    ensures
        ({
            let p = PendingModel::fresh(kind, session, instruction, episode, now);
            &&& p.kind == kind
            &&& p.project == session.project@
            &&& p.epic == session.epic@
            &&& p.generation == session.generation
            &&& p.instruction == instruction
            &&& p.episode == episode
            &&& p.waiting_since == now
            &&& p.attempts == 0
            &&& p.injected_at is None
            &&& !p.acked
            &&& p.acked_at is None
            &&& !p.awaiting_retry
            &&& !p.validating
            &&& !p.corrective
            &&& p.failure is None
            &&& !p.stuck_alerted
        }),
{
}

/// An acknowledgement is recorded with its time and takes an armed retry back; the
/// corrective round starts anew with what went wrong, its second delivery armed.
pub proof fn law_what_an_answer_changes(p: PendingModel, failure: Seq<char>, now: u128)
    ensures
        p.acknowledged(now) == (PendingModel {
            acked: true,
            acked_at: Some(now),
            awaiting_retry: false,
            ..p
        }),
        p.corrected(failure, now) == (PendingModel {
            instruction: corrective_text(p.kind, p.epic, p.generation, failure, p.episode),
            attempts: 1,
            awaiting_retry: true,
            waiting_since: now,
            acked: false,
            acked_at: None,
            validating: false,
            corrective: true,
            failure: Some(failure),
            ..p
        }),
{
}

// ---------------------------------------------------------------------------
// Rows
// ---------------------------------------------------------------------------

/// A row about an instruction goes to the trail of the instruction's project, and names its
/// epic, its generation and its session.
pub proof fn law_what_the_rows_about_an_instruction_say(
    row: AuditRow,
    id: u32,
    p: PendingModel,
    failure: Seq<char>,
    stuck: Option<StuckWait>,
)
    ensures
        is_acked_row(row, id, p) || is_invalid_row(row, id, p, failure) || is_ack_timeout_row(
            row,
            id,
            p,
            stuck,
        ) ==> row.project@ == p.project && row.epic@ == p.epic && row.generation == p.generation
            && row.session_id == id,
        is_acked_row(row, id, p) ==> row.event == AuditEventKind::Inject && row.details == (
        AuditDetails::Acked {
            instruction: p.kind,
            attempt: p.attempts,
            corrective: p.corrective,
        }),
        is_invalid_row(row, id, p, failure) ==> row.event == AuditEventKind::Alert && (
        row.details matches AuditDetails::Invalid { instruction, failure: text } && instruction
            == p.kind && text@ == failure),
        is_ack_timeout_row(row, id, p, stuck) ==> row.event == AuditEventKind::Alert && row.details
            == (AuditDetails::AckTimeout { attempts: p.attempts, instruction: p.kind, stuck }),
{
}

/// The alert of a tick says which wait ran out, that nobody answered, or what the corrective
/// round was about and how it failed.
pub proof fn law_what_the_alert_of_a_tick_says(
    row: AuditRow,
    id: u32,
    p: PendingModel,
    now: u128,
    times: LadderTimes,
)
    requires
        is_tick_row(row, id, p, p.tick_verdict(now, times)),
    ensures
        row.project@ == p.project,
        row.epic@ == p.epic,
        row.event == AuditEventKind::Alert,
        row.generation == p.generation,
        row.session_id == id,
        p.tick_verdict(now, times) is Stuck ==> row.details == (AuditDetails::AckTimeout {
            attempts: p.attempts,
            instruction: p.kind,
            stuck: Some(
                if p.awaiting_retry {
                    StuckWait::RetryNeverInjected
                } else {
                    StuckWait::NeverIdled
                },
            ),
        }),
        p.tick_verdict(now, times) is Unacknowledged && !p.corrective ==> row.details == (
        AuditDetails::AckTimeout { attempts: p.attempts, instruction: p.kind, stuck: None }),
        (p.tick_verdict(now, times) is Unacknowledged && p.corrective) || p.tick_verdict(
            now,
            times,
        ) is Unwritten ==> (row.details matches AuditDetails::Invalid { instruction, failure }
            && instruction == p.kind && (p.failure matches Some(first) ==> failure@.len()
            > first.len() && failure@.take(first.len() as int) == first)),
{
    if p.failure is Some {
        let first = p.failure->0;
        let a = crate::pending::unacknowledged_text(p);
        let b = crate::pending::unwritten_text(p);
        reveal_strlit("; the corrective instruction was never acknowledged");
        reveal_strlit("; the <");
        assert(a.take(first.len() as int) =~= first);
        assert(b.take(first.len() as int) =~= first);
    }
}

/// The alert that a session is without readings names the session, its run and generation,
/// and how many ticks that is.
pub proof fn law_what_the_blind_alert_says(row: AuditRow, session: SessionSnapshot, ticks: u32)
    ensures
        is_blind_row(row, session, ticks) <==> (row.project@ == session.project@ && row.epic@
            == session.epic@ && row.event == AuditEventKind::Alert && row.generation
            == session.generation && row.session_id == session.session_id && row.details == (
        AuditDetails::ContextBlind { ticks })),
{
}

/// The next wind-down of a session is one episode later than its last, or the first; an
/// all-clear closes the last one, or the first where none was opened.
pub proof fn law_how_episodes_count(m: InjectorModel, id: u32)
    ensures
        lookup(m.episodes, id) is None ==> m.next_episode(id) == 1 && m.current_episode(id) == 1,
        lookup(m.episodes, id) matches Some(e) ==> m.current_episode(id) == e && (e < u32::MAX
            ==> m.next_episode(id) == e + 1),
{
}

/// A written marker that did not come is said to be late by three windows.
pub proof fn law_how_late_a_written_marker_is(times: LadderTimes)
    requires
        times.ack_timeout_secs > 0,
        times.fits(),
    ensures
        contains(
            late_written_text(times),
            decimal((times.ack_timeout_secs * 3) as nat) + "s"@ + " of the ACK"@,
        ),
{
    let n = (times.ack_timeout_secs * 3) as nat;
    assert(times.written_window_secs() == n);
    let head = "the <"@ + crate::ladder::WRITTEN_TAG@ + "> marker did not arrive within "@;
    lemma_stands_last(head, decimal(n) + "s"@, " of the ACK"@);
}

/// An unanswered instruction is kept within its bounds and once it is acknowledged. Past
/// them the first delivery is repeated, the second given up; a wait for an idle signal is
/// alerted, an armed retry's after three windows.
pub proof fn law_the_verdict_on_a_silence(
    attempts: u8,
    awaiting_retry: bool,
    elapsed: Option<u128>,
    waiting: u128,
    timeout: u128,
    max_turn_wait: u128,
)
    ensures
        timeout_verdict_of(
            true,
            attempts,
            awaiting_retry,
            elapsed,
            waiting,
            timeout,
            max_turn_wait,
        ) == TimeoutVerdict::Keep,
        ({
            let verdict = timeout_verdict_of(
                false,
                attempts,
                awaiting_retry,
                elapsed,
                waiting,
                timeout,
                max_turn_wait,
            );
            if awaiting_retry {
                verdict == (if waiting > timeout * 3 {
                    TimeoutVerdict::AlertStuck
                } else {
                    TimeoutVerdict::Keep
                })
            } else {
                match elapsed {
                    None => verdict == (if waiting > max_turn_wait {
                        TimeoutVerdict::AlertStuck
                    } else {
                        TimeoutVerdict::Keep
                    }),
                    Some(e) => {
                        &&& e <= timeout ==> verdict == TimeoutVerdict::Keep
                        &&& e > timeout && attempts == 0 ==> verdict == TimeoutVerdict::Keep
                        &&& e > timeout && attempts == 1 ==> verdict == TimeoutVerdict::ArmRetry
                        &&& e > timeout && attempts >= 2 ==> verdict == TimeoutVerdict::Alert
                    },
                }
            }
        }),
{
}

/// An acknowledged instruction whose marker is late has its corrective round, once; then it
/// is given up. While it is validated, or within the window, it is kept.
pub proof fn law_the_verdict_on_a_late_marker(
    validating: bool,
    corrective: bool,
    elapsed: Option<u128>,
    window: u128,
)
    ensures
        ({
            let verdict = written_verdict_of(validating, corrective, elapsed, window);
            let late = !validating && (elapsed matches Some(e) && e > window);
            &&& !late ==> verdict == WrittenVerdict::Keep
            &&& late && !corrective ==> verdict == WrittenVerdict::Corrective
            &&& late && corrective ==> verdict == WrittenVerdict::Alert
        }),
{
}

/// Time that has not come has not passed.
pub proof fn law_how_time_passes(now: u128, at: u128)
    ensures
        now >= at ==> elapsed_since(now, at) == now - at,
        now < at ==> elapsed_since(now, at) == 0,
        elapsed_since_opt(now, Some(at)) == Some(elapsed_since(now, at)),
        elapsed_since_opt(now, None) is None,
{
}

/// A handoff is due in a session that works, once its reading is known and at or past the
/// threshold. An idle signal types an unanswered instruction in the state where it belongs,
/// the first time and, once the retry is armed, the second.
pub proof fn law_what_is_due(
    state: SupervisorState,
    home: SupervisorState,
    percent: Option<u64>,
    threshold: u64,
    acked: bool,
    attempts: u8,
    awaiting_retry: bool,
)
    ensures
        handoff_due(state, percent, threshold) <==> state == SupervisorState::Working && (
        percent matches Some(p) && p >= threshold),
        injects_on_idle(state, home, acked, attempts, awaiting_retry) <==> state == home && !acked
            && (attempts == 0 || (attempts == 1 && awaiting_retry)),
{
}

/// A park, a wind-down and an all-clear begin with the brief of their kind, for the
/// session's run, generation and episode.
pub proof fn law_what_an_instruction_says(
    m: InjectorModel,
    session: SessionSnapshot,
    now: u128,
)
    ensures
        ({
            let park = InjectorModel::fresh_park(session, now);
            let down = m.fresh_winddown(session, now);
            let clear = m.fresh_allclear(session, now);
            &&& park.kind == PendingKind::Park
            &&& park.instruction == brief_text(
                PendingKind::Park,
                session.epic@,
                session.generation,
                false,
                Seq::empty(),
                0,
            )
            &&& down.kind == PendingKind::SoftWinddown
            &&& down.episode == m.next_episode(session.session_id)
            &&& down.instruction == brief_text(
                PendingKind::SoftWinddown,
                session.epic@,
                session.generation,
                false,
                Seq::empty(),
                m.next_episode(session.session_id),
            )
            &&& clear.kind == PendingKind::WinddownAllClear
            &&& clear.episode == m.current_episode(session.session_id)
            &&& clear.instruction == brief_text(
                PendingKind::WinddownAllClear,
                session.epic@,
                session.generation,
                false,
                Seq::empty(),
                m.current_episode(session.session_id),
            )
            &&& park.generation == session.generation && down.generation == session.generation
                && clear.generation == session.generation
            &&& park.attempts == 0 && down.attempts == 0 && clear.attempts == 0
        }),
{
}

/// A soft wind-down is barred exactly by an instruction other than an all-clear that was not
/// alerted as stuck.
pub proof fn law_what_bars_a_winddown(m: InjectorModel, id: u32)
    ensures
        lookup(m.pending, id) is None ==> !m.bars_winddown(id),
        lookup(m.pending, id) matches Some(p) ==> (m.bars_winddown(id) <==> p.kind
            != PendingKind::WinddownAllClear && !p.stuck_alerted),
{
}

/// How each instruction is spelled in the trail.
pub proof fn law_how_an_instruction_is_named()
    ensures
        PendingKind::Handoff.name_text() == "handoff"@,
        PendingKind::Park.name_text() == "park"@,
        PendingKind::SoftWinddown.name_text() == "soft_winddown"@,
        PendingKind::WinddownAllClear.name_text() == "winddown_allclear"@,
{
}

/// What a corrective round is about is the failure that began it, or, where none is known,
/// that the validation failed. A wait is written in seconds.
pub proof fn law_how_a_failure_and_a_wait_are_written(p: PendingModel, secs: nat)
    ensures
        p.failure matches Some(first) ==> p.failure_text() == first,
        p.failure is None ==> p.failure_text() == "validation failed"@,
        secs > 0 ==> duration_text(secs) == decimal(secs) + "s"@,
        duration_text(0) == "0ns"@,
{
}

} // verus!
