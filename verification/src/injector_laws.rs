//! What holds of the injection controller as a whole.

use vstd::prelude::*;
use crate::injector::InjectorModel;
use crate::ladder::{
    expected_ack_text, expected_written_text, law_ack_values_distinct, law_written_values_distinct,
    tag_value, PendingKind, ACK_TAG, WRITTEN_TAG,
};
use crate::pending::{LadderTimes, PendingModel};
use crate::session::{SessionSnapshot, SupervisorState};
use crate::table::{lemma_put, lemma_without, lookup, put};

verus! {

/// A replayed acknowledgement, one that was written for another kind of
/// instruction, another generation, another round or another episode, is not taken
/// for this instruction's.
pub proof fn law_replayed_ack_is_ignored(
    p: PendingModel,
    text: Seq<char>,
    kind: PendingKind,
    generation: u32,
    corrective: bool,
    episode: u32,
)
    requires
        tag_value(text, ACK_TAG@) == Some(expected_ack_text(kind, generation, corrective, episode)),
        kind != p.kind || generation != p.generation || (!kind.ack_only() && corrective
            != p.corrective) || (kind.ack_only() && episode != p.episode),
    ensures
        !p.acknowledged_by(text),
{
    if p.acknowledged_by(text) {
        law_ack_values_distinct(
            kind,
            generation,
            corrective,
            episode,
            p.kind,
            p.generation,
            p.corrective,
            p.episode,
        );
    }
}

/// A replayed written marker, one that was written for another kind of
/// instruction, another generation or another round, starts no validation.
pub proof fn law_replayed_written_marker_is_ignored(
    p: PendingModel,
    text: Seq<char>,
    kind: PendingKind,
    generation: u32,
    corrective: bool,
)
    requires
        !kind.ack_only(),
        tag_value(text, WRITTEN_TAG@) == expected_written_text(kind, generation, corrective),
        kind != p.kind || generation != p.generation || corrective != p.corrective,
    ensures
        !p.written_by(text),
{
    if p.written_by(text) {
        law_written_values_distinct(
            kind,
            generation,
            corrective,
            p.kind,
            p.generation,
            p.corrective,
        );
    }
}

/// An idle signal that types an instruction uses itself up: no second one types it
/// again before the tick armed a retry.
pub proof fn law_one_idle_signal_types_once(
    m: InjectorModel,
    session_id: u32,
    state: Option<SupervisorState>,
    later: Option<SupervisorState>,
    now: u128,
)
    requires
        m.wf(),
        m.due_on_idle(session_id, state),
    ensures
        !m.after_idle(session_id, state, now).due_on_idle(session_id, later),
        !m.after_idle(session_id, state, now).idle.contains(session_id),
{
    let p = lookup(m.pending, session_id)->0;
    crate::table::lemma_lookup(m.pending, session_id);
    lemma_put(m.pending, session_id, p.typed(now));
}

/// The rung that an instruction stands on: lower is later. The corrective round
/// stands below the whole first round.
pub open spec fn rung(p: PendingModel) -> nat {
    let round: nat = if p.corrective {
        0
    } else {
        8
    };
    let step: nat = if p.validating {
        2
    } else if p.acked {
        3
    } else if p.attempts == 0 {
        7
    } else if p.awaiting_retry {
        5
    } else if p.attempts == 1 {
        6
    } else {
        4
    };
    round + step
}

/// What is left of the ladder, with the one alert about a wait on each rung.
pub open spec fn left(p: PendingModel) -> nat {
    2 * rung(p) + if p.stuck_alerted {
        0nat
    } else {
        1nat
    }
}

/// Whatever a tick does to an instruction that it keeps leads down the ladder, so
/// no tick repeats itself for ever: an instruction is retried once, corrected once
/// and alerted once on each wait.
pub proof fn law_ticks_lead_down_the_ladder(p: PendingModel, now: u128, times: LadderTimes)
    requires
        p.wf(),
        times.fits(),
    ensures
        p.after_tick(now, times).wf(),
        p.tick_verdict(now, times) is Keep ==> p.after_tick(now, times) == p,
        !(p.tick_verdict(now, times) is Keep) && !p.tick_verdict(now, times).drops() ==> left(
            p.after_tick(now, times),
        ) < left(p),
{
}

/// Typing, an acknowledgement, a written marker and the corrective round lead down
/// the ladder too.
pub proof fn law_events_lead_down_the_ladder(
    p: PendingModel,
    text: Seq<char>,
    failure: Seq<char>,
    now: u128,
)
    requires
        p.wf(),
    ensures
        !p.acked && (p.attempts == 0 || (p.attempts == 1 && p.awaiting_retry)) ==> left(
            p.typed(now),
        ) < left(p) && p.typed(now).wf(),
        p.acknowledged_by(text) && !p.kind.ack_only() ==> left(p.acknowledged(now)) < left(p)
            && p.acknowledged(now).wf(),
        p.written_by(text) ==> left(PendingModel { validating: true, ..p }) < left(p),
        p.validating && !p.corrective ==> left(p.corrected(failure, now)) < left(p) && p.corrected(
            failure,
            now,
        ).wf(),
{
}

/// There is one corrective round: once it is armed, no tick arms another, and what
/// goes wrong in it drops the instruction.
pub proof fn law_one_corrective_round(p: PendingModel, now: u128, times: LadderTimes)
    requires
        p.wf(),
        p.corrective,
    ensures
        !(p.tick_verdict(now, times) is Correct),
        p.after_tick(now, times).corrective,
{
}

/// The alert about a wait is raised once: the tick that raised it leaves an
/// instruction for which no later tick raises it again, until it is typed.
pub proof fn law_stuck_alert_is_raised_once(
    p: PendingModel,
    now: u128,
    later: u128,
    times: LadderTimes,
)
    requires
        p.tick_verdict(now, times) is Stuck,
    ensures
        !(p.after_tick(now, times).tick_verdict(later, times) is Stuck),
{
}

/// An instruction that was never typed is not acknowledged by anything, and one
/// that is not acknowledged has no written marker.
pub proof fn law_order_of_the_rungs(p: PendingModel, text: Seq<char>)
    ensures
        p.attempts == 0 ==> !p.acknowledged_by(text),
        !p.acked ==> !p.written_by(text),
{
}

/// A park supersedes what was pending: afterwards the session has a park
/// instruction that counts as pending.
pub proof fn law_park_supersedes(
    m: InjectorModel,
    session: SessionSnapshot,
    instruction: Seq<char>,
    state: Option<SupervisorState>,
    now: u128,
)
    requires
        m.wf(),
    ensures
        ({
            let p = PendingModel::fresh(PendingKind::Park, session, instruction, 0, now);
            let after = m.after_arming(session.session_id, p, state, now);
            lookup(after.pending, session.session_id) matches Some(q) && q.kind is Park
                && !q.stuck_alerted && !q.acked
        }),
{
    let id = session.session_id;
    let p = PendingModel::fresh(PendingKind::Park, session, instruction, 0, now);
    lemma_put(m.pending, id, p);
    lemma_put(put(m.pending, id, p), id, p.typed(now));
}

/// A wind-down that is armed opens the next episode, and one that is refused opens none.
/// So the all-clear closes the episode of the wind-down that was armed, however often
/// another was refused meanwhile.
pub proof fn law_an_allclear_closes_its_episode(
    m: InjectorModel,
    session: SessionSnapshot,
    state: Option<SupervisorState>,
    now: u128,
    again: Option<SupervisorState>,
    later: u128,
)
    requires
        m.wf(),
        m.takes_winddown(session.session_id),
        m.episode_count(session.session_id) < u32::MAX,
    ensures
        ({
            let id = session.session_id;
            let opened = m.after_winddown(session, state, now);
            let armed = lookup(opened.pending, id)->0;
            &&& lookup(opened.pending, id) is Some
            &&& armed.kind is SoftWinddown
            &&& armed.episode == m.episode_count(id) + 1
            &&& opened.episode_count(id) == m.episode_count(id) + 1
            &&& !opened.takes_winddown(id)
            &&& opened.after_winddown(session, again, later) == opened
            &&& opened.fresh_allclear(session, later).episode == armed.episode
        }),
{
    let id = session.session_id;
    let episode = m.next_episode(id);
    lemma_put(m.episodes, id, episode);
    let p = m.fresh_winddown(session, now);
    lemma_put(m.pending, id, p);
    lemma_put(put(m.pending, id, p), id, p.typed(now));
}

/// Two episodes of one generation have different acknowledgements.
pub proof fn law_episodes_have_their_own_values(generation: u32, episode: u32, other: u32)
    requires
        episode != other,
    ensures
        expected_ack_text(PendingKind::SoftWinddown, generation, false, episode)
            != expected_ack_text(PendingKind::SoftWinddown, generation, false, other),
        expected_ack_text(PendingKind::WinddownAllClear, generation, false, episode)
            != expected_ack_text(PendingKind::WinddownAllClear, generation, false, other),
{
    if expected_ack_text(PendingKind::SoftWinddown, generation, false, episode)
        == expected_ack_text(PendingKind::SoftWinddown, generation, false, other) {
        law_ack_values_distinct(
            PendingKind::SoftWinddown,
            generation,
            false,
            episode,
            PendingKind::SoftWinddown,
            generation,
            false,
            other,
        );
    }
    if expected_ack_text(PendingKind::WinddownAllClear, generation, false, episode)
        == expected_ack_text(PendingKind::WinddownAllClear, generation, false, other) {
        law_ack_values_distinct(
            PendingKind::WinddownAllClear,
            generation,
            false,
            episode,
            PendingKind::WinddownAllClear,
            generation,
            false,
            other,
        );
    }
}

/// What happens to one session leaves the instruction of every other alone.
pub proof fn law_sessions_do_not_disturb_each_other(
    m: InjectorModel,
    session_id: u32,
    other: u32,
    p: PendingModel,
    state: Option<SupervisorState>,
    text: Seq<char>,
    now: u128,
)
    requires
        m.wf(),
        session_id != other,
    ensures
        lookup(m.with_pending(session_id, p).pending, other) == lookup(m.pending, other),
        lookup(m.without_pending(session_id).pending, other) == lookup(m.pending, other),
        lookup(m.after_idle(session_id, state, now).pending, other) == lookup(m.pending, other),
        lookup(m.after_arming(session_id, p, state, now).pending, other) == lookup(
            m.pending,
            other,
        ),
        lookup(m.after_ack(session_id, text, now).pending, other) == lookup(m.pending, other),
        lookup(m.after_written(session_id, text).pending, other) == lookup(m.pending, other),
{
    let q = lookup(m.pending, session_id)->0;
    lemma_without(m.pending, session_id);
    lemma_put(m.pending, session_id, p);
    lemma_put(m.pending, session_id, q.typed(now));
    lemma_put(m.pending, session_id, q.acknowledged(now));
    lemma_put(m.pending, session_id, PendingModel { validating: true, ..q });
    let armed = put(m.pending, session_id, p);
    lemma_put(armed, session_id, p.typed(now));
}

} // verus!
