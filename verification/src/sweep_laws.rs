//! What holds of a sweep, of its timers and of a release, in terms of what is listed.

use vstd::prelude::*;
use crate::audit::{AuditDetails, AuditEventKind, AuditRow};
use crate::clock::{rfc3339_moment, rfc3339_text, Moment};
use crate::injector::InjectorModel;
use crate::parker::{
    alert_targets, free_offset, holds_open, is_arm_failed_row, is_external_row, is_live,
    is_no_reset_row, is_park_order, is_planned_at, is_resume_timer, lemma_free_offset, offsets,
    parkable_of, parks_before, replaces, resume_trigger_text, resumed, resumes, row_runs,
    ArmedTimer, ParkerModel, ReleasedRun, ResumeTimer, RunStanding,
};
use crate::parker_laws::{
    is_timer_of, law_only_its_own_timer_counts_for_a_run, law_reasons_are_recorded,
};
use crate::runs::{
    are_first_of_projects, ascending, has_project, is_sorted_set, run_less, text_less, Run,
};
use crate::session::{SessionSnapshot, SupervisorState};
use crate::table::{distinct_keys, lemma_filter_distinct, lookup};

verus! {

// ---------------------------------------------------------------------------
// The states of a session
// ---------------------------------------------------------------------------

/// A session is at its end once it was killed, parked or found dead; in every other state
/// it is live.
pub proof fn law_three_states_are_final(state: SupervisorState)
    ensures
        state.terminal() <==> (state == SupervisorState::Killed || state
            == SupervisorState::Parked || state == SupervisorState::Dead),
        !SupervisorState::Working.terminal(),
        !SupervisorState::HandoffRequested.terminal(),
        !SupervisorState::HandoffWritten.terminal(),
        !SupervisorState::ParkRequested.terminal(),
{
}

// ---------------------------------------------------------------------------
// Who is parked next
// ---------------------------------------------------------------------------

/// The session at `i` is listed, works, has nothing in flight and was not skipped.
pub open spec fn can_be_parked(
    failed: Set<u32>,
    sessions: Seq<SessionSnapshot>,
    i: int,
) -> bool {
    0 <= i < sessions.len() && sessions[i].state == SupervisorState::Working
        && sessions[i].in_flight is None && !failed.contains(sessions[i].session_id)
}

/// The entry is that of a session that can be parked, with the session's own reading.
pub open spec fn is_of_parkable(
    failed: Set<u32>,
    sessions: Seq<SessionSnapshot>,
    percents: Seq<(u32, u64)>,
    entry: (u32, Option<u64>),
) -> bool {
    exists|i: int| #[trigger]
        can_be_parked(failed, sessions, i) && entry == (
            sessions[i].session_id,
            lookup(percents, sessions[i].session_id),
        )
}

proof fn lemma_parkable(
    m: ParkerModel,
    sessions: Seq<SessionSnapshot>,
    percents: Seq<(u32, u64)>,
)
    ensures
        ({
            let entries = parkable_of(m, sessions, percents);
            &&& entries.len() <= sessions.len()
            &&& forall|i: int| #[trigger]
                can_be_parked(m.failed, sessions, i) ==> entries.contains(
                    (sessions[i].session_id, lookup(percents, sessions[i].session_id)),
                )
            &&& forall|k: int|
                0 <= k < entries.len() ==> is_of_parkable(
                    m.failed,
                    sessions,
                    percents,
                    #[trigger] entries[k],
                )
        }),
    decreases sessions.len(),
{
    let entries = parkable_of(m, sessions, percents);
    if sessions.len() > 0 {
        let init = sessions.drop_last();
        let last = sessions.len() - 1;
        let before = parkable_of(m, init, percents);
        lemma_parkable(m, init, percents);
        assert(sessions.last() == sessions[last]);
        assert forall|i: int| #[trigger]
            can_be_parked(m.failed, sessions, i) implies entries.contains(
            (sessions[i].session_id, lookup(percents, sessions[i].session_id)),
        ) by {
            let e = (sessions[i].session_id, lookup(percents, sessions[i].session_id));
            if i < last {
                assert(can_be_parked(m.failed, init, i));
                assert(before.contains(e));
                let k = choose|k: int| 0 <= k < before.len() && before[k] == e;
                assert(entries[k] == e);
            } else {
                assert(entries[before.len() as int] == e);
            }
        }
        assert forall|k: int| 0 <= k < entries.len() implies is_of_parkable(
            m.failed,
            sessions,
            percents,
            #[trigger] entries[k],
        ) by {
            if k < before.len() {
                assert(entries[k] == before[k]);
                let i = choose|i: int| #[trigger]
                    can_be_parked(m.failed, init, i) && before[k] == (
                        init[i].session_id,
                        lookup(percents, init[i].session_id),
                    );
                assert(can_be_parked(m.failed, sessions, i));
            } else {
                assert(can_be_parked(m.failed, sessions, last));
            }
        }
    }
}

/// A step of the sweep tries every listed session that works, has nothing in flight and was
/// not skipped, each with its own reading, wherever it stands in the listing; it tries no
/// other.
pub proof fn law_every_session_that_can_be_parked_is_tried(
    m: ParkerModel,
    sessions: Seq<SessionSnapshot>,
    percents: Seq<(u32, u64)>,
    ordered: Seq<(u32, Option<u64>)>,
)
    requires
        is_park_order(ordered, parkable_of(m, sessions, percents)),
    ensures
        ordered.len() <= sessions.len(),
        forall|i: int| #[trigger]
            can_be_parked(m.failed, sessions, i) ==> ordered.contains(
                (sessions[i].session_id, lookup(percents, sessions[i].session_id)),
            ),
        forall|k: int|
            0 <= k < ordered.len() ==> is_of_parkable(
                m.failed,
                sessions,
                percents,
                #[trigger] ordered[k],
            ),
{
    broadcast use vstd::seq_lib::group_to_multiset_ensures;

    let entries = parkable_of(m, sessions, percents);
    lemma_parkable(m, sessions, percents);
    assert(ordered.to_multiset().len() == entries.to_multiset().len());
    assert forall|i: int| #[trigger]
        can_be_parked(m.failed, sessions, i) implies ordered.contains(
        (sessions[i].session_id, lookup(percents, sessions[i].session_id)),
    ) by {
        let e = (sessions[i].session_id, lookup(percents, sessions[i].session_id));
        assert(entries.contains(e));
        assert(entries.to_multiset().count(e) > 0);
        assert(ordered.to_multiset().count(e) > 0);
    }
    assert forall|k: int| 0 <= k < ordered.len() implies is_of_parkable(
        m.failed,
        sessions,
        percents,
        #[trigger] ordered[k],
    ) by {
        assert(ordered.contains(ordered[k]));
        assert(ordered.to_multiset().count(ordered[k]) > 0);
        assert(entries.to_multiset().count(ordered[k]) > 0);
        assert(entries.contains(ordered[k]));
        let j = choose|j: int| 0 <= j < entries.len() && entries[j] == ordered[k];
        assert(entries[j] == ordered[k]);
    }
}

/// The higher reading is tried first, a session without one behind every session with one,
/// and among equals the lower id.
pub proof fn law_the_order_of_parking(
    ordered: Seq<(u32, Option<u64>)>,
    entries: Seq<(u32, Option<u64>)>,
    i: int,
    j: int,
)
    requires
        is_park_order(ordered, entries),
        0 <= i < j < ordered.len(),
    ensures
        match (ordered[i].1, ordered[j].1) {
            (Some(p), Some(q)) => p > q || (p == q && ordered[i].0 <= ordered[j].0),
            (Some(_), None) => true,
            (None, Some(_)) => false,
            (None, None) => ordered[i].0 <= ordered[j].0,
        },
{
    assert(!parks_before(ordered[j], ordered[i]));
}

/// A step waits exactly while a listed session is asked to park, was not skipped, and its
/// instruction is pending and not stuck.
pub proof fn law_when_a_step_waits(
    m: ParkerModel,
    injector: InjectorModel,
    sessions: Seq<SessionSnapshot>,
)
    ensures
        m.park_in_flight(injector, sessions) <==> exists|i: int|
            0 <= i < sessions.len() && (#[trigger] sessions[i]).state
                == SupervisorState::ParkRequested && !m.failed.contains(sessions[i].session_id) && (
            lookup(injector.pending, sessions[i].session_id) matches Some(p) && !p.stuck_alerted),
{
    if exists|i: int|
        0 <= i < sessions.len() && (#[trigger] sessions[i]).state == SupervisorState::ParkRequested
            && !m.failed.contains(sessions[i].session_id) && (lookup(
            injector.pending,
            sessions[i].session_id,
        ) matches Some(p) && !p.stuck_alerted) {
        let i = choose|i: int|
            0 <= i < sessions.len() && (#[trigger] sessions[i]).state
                == SupervisorState::ParkRequested && !m.failed.contains(sessions[i].session_id) && (
            lookup(injector.pending, sessions[i].session_id) matches Some(p) && !p.stuck_alerted);
        assert(m.parking(injector, sessions[i]));
    }
    if m.park_in_flight(injector, sessions) {
        let i = choose|i: int|
            0 <= i < sessions.len() && #[trigger] m.parking(injector, sessions[i]);
        assert(sessions[i].state == SupervisorState::ParkRequested);
    }
}

/// An instruction of the session is pending and not stuck.
pub open spec fn instructed(injector: InjectorModel, id: u32) -> bool {
    lookup(injector.pending, id) matches Some(p) && !p.stuck_alerted
}

/// The session at `i` has still to be parked or to finish its handoff.
pub open spec fn is_unfinished(
    failed: Set<u32>,
    injector: InjectorModel,
    sessions: Seq<SessionSnapshot>,
    i: int,
) -> bool {
    let s = sessions[i];
    let id = s.session_id;
    &&& 0 <= i < sessions.len()
    &&& (s.state == SupervisorState::Working && !failed.contains(id)) || (s.state
        == SupervisorState::ParkRequested && !failed.contains(id) && instructed(injector, id)) || (
    s.state == SupervisorState::HandoffRequested && instructed(injector, id)) || s.state
        == SupervisorState::HandoffWritten
}

/// A sweep ends exactly if no listed session has still to be parked or to finish its
/// handoff; a session that was skipped never holds it open, nor one at its end.
pub proof fn law_when_a_sweep_ends(
    m: ParkerModel,
    injector: InjectorModel,
    sessions: Seq<SessionSnapshot>,
)
    ensures
        m.blocked(injector, sessions) <==> exists|i: int| #[trigger]
            is_unfinished(m.failed, injector, sessions, i),
{
    if m.blocked(injector, sessions) {
        let i = choose|i: int|
            0 <= i < sessions.len() && #[trigger] m.blocks(injector, sessions[i]);
        assert(is_unfinished(m.failed, injector, sessions, i));
    }
    if exists|i: int| #[trigger] is_unfinished(m.failed, injector, sessions, i) {
        let i = choose|i: int| #[trigger] is_unfinished(m.failed, injector, sessions, i);
        assert(m.blocks(injector, sessions[i]));
    }
}

// ---------------------------------------------------------------------------
// The course of a sweep
// ---------------------------------------------------------------------------

/// A condition that finds no sweep engages one without timers, for its own reason, and
/// leaves everything else.
pub proof fn law_a_condition_engages_a_sweep(m: ParkerModel, reason: Seq<char>)
    requires
        !m.engaged,
    ensures
        ({
            let after = m.after_external(reason);
            &&& after.engaged
            &&& after.suppress_timers
            &&& after.external_reason == Some(reason)
            &&& after.reason() == reason
            &&& after.failed == m.failed
            &&& after.parked == m.parked
            &&& after.resets_at == m.resets_at
            &&& after.last_resets_at == m.last_resets_at
            &&& after.pending_release == m.pending_release
            &&& after.pending_allclear == m.pending_allclear
            &&& after.wound_down == m.wound_down
            &&& after.park_reasons == m.park_reasons
        }),
{
}

/// A crossing engages a sweep with timers, for the allowance, and keeps the later of the
/// known reset times. It leaves everything else: what was parked or skipped, what was held
/// back, and why runs are parked.
pub proof fn law_a_crossing_engages_a_sweep(m: ParkerModel, resets_at: Option<Moment>)
    ensures
        ({
            let after = m.after_hard(resets_at);
            &&& after.engaged
            &&& !after.suppress_timers
            &&& after.external_reason is None
            &&& after.reason() == "allowance"@
            &&& resets_at is None ==> after.resets_at == m.resets_at
            &&& m.resets_at is None ==> after.resets_at == resets_at
            &&& resets_at matches Some(b) ==> (m.resets_at matches Some(a) ==> after.resets_at
                == Some(
                if a.secs < b.secs || (a.secs == b.secs && a.nanos < b.nanos) {
                    b
                } else {
                    a
                },
            ))
            &&& after.failed == m.failed
            &&& after.parked == m.parked
            &&& after.last_resets_at == m.last_resets_at
            &&& after.pending_release == m.pending_release
            &&& after.pending_allclear == m.pending_allclear
            &&& after.wound_down == m.wound_down
            &&& after.park_reasons == m.park_reasons
        }),
{
}

/// The end of a sweep leaves nothing of it but the reasons of its runs and the last known
/// reset time. Who was wound down is still remembered.
pub proof fn law_what_is_left_of_a_sweep(m: ParkerModel, ended_with: Seq<Run>, run: Run)
    requires
        distinct_keys(m.park_reasons),
    ensures
        ({
            let after = m.after_completion(ended_with);
            &&& !after.engaged
            &&& forall|id: u32| !#[trigger] after.failed.contains(id)
            &&& forall|r: Run| !#[trigger] after.parked.contains(r)
            &&& after.resets_at is None
            &&& m.resets_at is Some ==> after.last_resets_at == m.resets_at
            &&& m.resets_at is None ==> after.last_resets_at == m.last_resets_at
            &&& !after.suppress_timers
            &&& after.external_reason is None
            &&& after.pending_release is None
            &&& !after.pending_allclear
            &&& after.wound_down == m.wound_down
            &&& ended_with.contains(run) ==> lookup(after.park_reasons, run) == Some(
                match m.external_reason {
                    Some(reason) => reason,
                    None => "allowance"@,
                },
            )
            &&& !ended_with.contains(run) ==> lookup(after.park_reasons, run) == lookup(
                m.park_reasons,
                run,
            )
        }),
{
    law_reasons_are_recorded(m.park_reasons, ended_with, m.reason(), run);
}

/// A release takes the runs that are parked for its condition and no other; it is held back
/// for a sweep of the same condition only. It leaves everything else.
pub proof fn law_what_a_release_changes(m: ParkerModel, reason: Seq<char>, run: Run)
    requires
        distinct_keys(m.park_reasons),
    ensures
        ({
            let after = m.after_release(reason);
            &&& lookup(m.park_reasons, run) == Some(reason) ==> lookup(after.park_reasons, run)
                is None
            &&& lookup(m.park_reasons, run) != Some(reason) ==> lookup(after.park_reasons, run)
                == lookup(m.park_reasons, run)
            &&& m.external_reason == Some(reason) ==> after.pending_release == Some(reason)
            &&& m.external_reason != Some(reason) ==> after.pending_release == m.pending_release
            &&& after.engaged == m.engaged
            &&& after.failed == m.failed
            &&& after.parked == m.parked
            &&& after.resets_at == m.resets_at
            &&& after.last_resets_at == m.last_resets_at
            &&& after.suppress_timers == m.suppress_timers
            &&& after.external_reason == m.external_reason
            &&& after.pending_allclear == m.pending_allclear
            &&& after.wound_down == m.wound_down
        }),
{
    lemma_filter_distinct(m.park_reasons, crate::parker::parked_otherwise(reason));
}

// ---------------------------------------------------------------------------
// Resumes
// ---------------------------------------------------------------------------

/// The session at `i` is listed, belongs to `epic` of `project`, and is not at its end.
pub open spec fn is_live_session(
    sessions: Seq<SessionSnapshot>,
    i: int,
    project: Seq<char>,
    epic: Seq<char>,
) -> bool {
    0 <= i < sessions.len() && sessions[i].project@ == project && sessions[i].epic@ == epic
        && sessions[i].state != SupervisorState::Killed && sessions[i].state
        != SupervisorState::Parked && sessions[i].state != SupervisorState::Dead
}

/// A released run is resumed exactly if no session of it is live, its configuration does
/// not say that it ended, and no timer of its own is armed. Sessions and timers of other
/// runs, also of an equally named epic of another project, do not stand in its way.
pub proof fn law_when_a_released_run_is_resumed(
    released: ReleasedRun,
    sessions: Seq<SessionSnapshot>,
    timers: Seq<ArmedTimer>,
)
    ensures
        resumes(released, sessions, timers) <==> {
            let project = released.key.project@;
            let epic = released.key.epic@;
            &&& forall|i: int| !#[trigger] is_live_session(sessions, i, project, epic)
            &&& match released.standing {
                RunStanding::Unchecked => true,
                RunStanding::Found { active } => active,
                RunStanding::Missing => false,
                RunStanding::Unreadable => true,
            }
            &&& forall|i: int|
                0 <= i < timers.len() ==> !is_timer_of(#[trigger] timers[i], project, epic)
        },
{
    let project = released.key.project@;
    let epic = released.key.epic@;
    law_only_its_own_timer_counts_for_a_run(timers, project, epic);
    if is_live(sessions, released.key@) {
        let i = choose|i: int|
            0 <= i < sessions.len() && (#[trigger] sessions[i]).run() == released.key@
                && !sessions[i].state.terminal();
        assert(is_live_session(sessions, i, project, epic));
    }
    if exists|i: int| #[trigger] is_live_session(sessions, i, project, epic) {
        let i = choose|i: int| #[trigger] is_live_session(sessions, i, project, epic);
        assert(sessions[i].run() == released.key@);
    }
}

/// One entry of the plan is for the run.
pub open spec fn has_run(plan: Seq<(Run, int)>, project: Seq<char>, epic: Seq<char>) -> bool {
    exists|i: int| 0 <= i < plan.len() && (#[trigger] plan[i]).0 == (project, epic)
}

/// The run is one of the released and is to be resumed.
pub open spec fn is_to_resume(
    released: Seq<ReleasedRun>,
    sessions: Seq<SessionSnapshot>,
    timers: Seq<ArmedTimer>,
    run: Run,
) -> bool {
    exists|k: int|
        0 <= k < released.len() && resumes(#[trigger] released[k], sessions, timers) && run == (
            released[k].key.project@,
            released[k].key.epic@,
        )
}

/// Every released run that is to be resumed has its place in the plan, wherever it stands
/// among the released, and nothing else has one.
pub proof fn law_the_plan_has_every_run_to_resume(
    released: Seq<ReleasedRun>,
    sessions: Seq<SessionSnapshot>,
    timers: Seq<ArmedTimer>,
)
    ensures
        ({
            let plan = resumed(released, sessions, timers);
            &&& forall|k: int|
                0 <= k < released.len() && resumes(#[trigger] released[k], sessions, timers)
                    ==> has_run(plan, released[k].key.project@, released[k].key.epic@)
            &&& forall|i: int|
                0 <= i < plan.len() ==> is_to_resume(
                    released,
                    sessions,
                    timers,
                    (#[trigger] plan[i]).0,
                )
        }),
    decreases released.len(),
{
    let plan = resumed(released, sessions, timers);
    if released.len() > 0 {
        let init = released.drop_last();
        let before = resumed(init, sessions, timers);
        let last = released.len() - 1;
        law_the_plan_has_every_run_to_resume(init, sessions, timers);
        assert(released.last() == released[last]);
        assert forall|k: int|
            0 <= k < released.len() && resumes(#[trigger] released[k], sessions, timers)
            implies has_run(plan, released[k].key.project@, released[k].key.epic@) by {
            if k < last {
                assert(init[k] == released[k]);
                let i = choose|i: int|
                    0 <= i < before.len() && (#[trigger] before[i]).0 == (
                        init[k].key.project@,
                        init[k].key.epic@,
                    );
                assert(plan[i] == before[i]);
            } else {
                assert(plan[before.len() as int].0 == released[k].key@);
            }
        }
        assert forall|i: int| 0 <= i < plan.len() implies is_to_resume(
            released,
            sessions,
            timers,
            (#[trigger] plan[i]).0,
        ) by {
            if i < before.len() {
                assert(plan[i] == before[i]);
                let k = choose|k: int|
                    0 <= k < init.len() && resumes(#[trigger] init[k], sessions, timers)
                        && before[i].0 == (init[k].key.project@, init[k].key.epic@);
                assert(released[k] == init[k]);
            } else {
                assert(resumes(released[last], sessions, timers));
            }
        }
    }
}

/// One more released run does not move the others. It resumes at its own jitter, or at the
/// first second behind it that no other run has.
pub proof fn law_one_more_run_takes_the_first_free_second(
    released: Seq<ReleasedRun>,
    more: ReleasedRun,
    sessions: Seq<SessionSnapshot>,
    timers: Seq<ArmedTimer>,
)
    requires
        resumes(more, sessions, timers),
    ensures
        ({
            let before = resumed(released, sessions, timers);
            let plan = resumed(released.push(more), sessions, timers);
            let n = before.len() as int;
            &&& plan.len() == n + 1
            &&& forall|i: int| 0 <= i < n ==> #[trigger] plan[i] == before[i]
            &&& plan[n].0 == (more.key.project@, more.key.epic@)
            &&& plan[n].1 >= more.jitter
            &&& forall|i: int| 0 <= i < n ==> (#[trigger] before[i]).1 != plan[n].1
            &&& forall|x: int|
                more.jitter <= x < plan[n].1 ==> #[trigger] has_offset(before, x)
        }),
{
    let before = resumed(released, sessions, timers);
    let all = released.push(more);
    let plan = resumed(all, sessions, timers);
    let n = before.len() as int;
    assert(all.drop_last() =~= released);
    assert(all.last() == more);
    let taken = offsets(before);
    lemma_free_offset(taken, more.jitter as int);
    assert(plan[n].1 == free_offset(taken, more.jitter as int));
    assert forall|i: int| 0 <= i < n implies (#[trigger] before[i]).1 != plan[n].1 by {
        assert(taken[i] == before[i].1);
    }
    assert forall|x: int| more.jitter <= x < plan[n].1 implies #[trigger] has_offset(
        before,
        x,
    ) by {
        assert(taken.contains(x));
        let i = choose|i: int| 0 <= i < taken.len() && taken[i] == x;
        assert(before[i].1 == x);
    }
}

/// One entry of the plan has this offset.
pub open spec fn has_offset(plan: Seq<(Run, int)>, x: int) -> bool {
    exists|i: int| 0 <= i < plan.len() && (#[trigger] plan[i]).1 == x
}

/// The timer of a resumed run is for the run's project and epic, so many seconds from the
/// present, and names what was fixed.
pub proof fn law_what_a_resume_timer_says(
    timer: ResumeTimer,
    entry: (Run, int),
    reason: Seq<char>,
    now: Moment,
)
    requires
        is_resume_timer(timer, entry, reason, now),
        now.nanos < 1_000_000_000,
    ensures
        timer.key.project@ == entry.0.0,
        timer.key.epic@ == entry.0.1,
        timer.fire_at@ == rfc3339_text((now.secs + entry.1) as i64, now.nanos),
        timer.reason@ == (if reason == "gh_auth_lost"@ {
            "gh_auth_restored"@
        } else {
            reason
        }),
{
}

/// Lost credentials are released by restored ones; any other condition by itself.
pub proof fn law_what_releases_a_condition(reason: Seq<char>)
    ensures
        resume_trigger_text("gh_auth_lost"@) == "gh_auth_restored"@,
        reason != "gh_auth_lost"@ ==> resume_trigger_text(reason) == reason,
{
}

// ---------------------------------------------------------------------------
// Rows
// ---------------------------------------------------------------------------

/// A condition is alerted once for every project with a listed session: each row goes to
/// the trail of such a project, for one of its runs, and no project gets two. With nothing
/// listed the account gets the one row.
pub proof fn law_a_condition_is_alerted_once_for_every_project(
    rows: Seq<AuditRow>,
    sessions: Seq<SessionSnapshot>,
    account: Run,
)
    requires
        are_first_of_projects(row_runs(rows), alert_targets(sessions, account)),
    ensures
        sessions.len() == 0 ==> exists|i: int|
            0 <= i < rows.len() && (#[trigger] rows[i]).project@ == account.0 && rows[i].epic@
                == account.1,
        forall|k: int|
            0 <= k < sessions.len() ==> has_row_of(rows, (#[trigger] sessions[k]).project@),
        forall|i: int|
            0 <= i < rows.len() && sessions.len() > 0 ==> has_session_of(
                sessions,
                (#[trigger] rows[i]).project@,
                rows[i].epic@,
            ),
        forall|i: int, j: int|
            0 <= i < j < rows.len() ==> (#[trigger] rows[i]).project@ != (
            #[trigger] rows[j]).project@,
{
    let runs = row_runs(rows);
    let targets = alert_targets(sessions, account);
    assert forall|k: int| 0 <= k < sessions.len() implies has_row_of(
        rows,
        (#[trigger] sessions[k]).project@,
    ) by {
        assert(targets[k].0 == sessions[k].project@);
        assert(has_project(runs, targets[k].0));
        let i = choose|i: int| 0 <= i < runs.len() && (#[trigger] runs[i]).0 == targets[k].0;
        assert(rows[i].project@ == runs[i].0);
    }
    assert forall|i: int| 0 <= i < rows.len() && sessions.len() > 0 implies has_session_of(
        sessions,
        (#[trigger] rows[i]).project@,
        rows[i].epic@,
    ) by {
        assert(targets.contains(runs[i]));
        let k = choose|k: int| 0 <= k < targets.len() && targets[k] == runs[i];
        assert(sessions[k].project@ == rows[i].project@);
    }
    if sessions.len() == 0 {
        assert(targets[0] == account);
        assert(has_project(runs, targets[0].0));
        let i = choose|i: int| 0 <= i < runs.len() && (#[trigger] runs[i]).0 == targets[0].0;
        assert(targets.contains(runs[i]));
        assert(rows[i].project@ == runs[i].0);
    }
    assert forall|i: int, j: int| 0 <= i < j < rows.len() implies (#[trigger] rows[i]).project@ != (
    #[trigger] rows[j]).project@ by {
        assert(text_less(runs[i].0, runs[j].0));
        crate::runs::lemma_run_order((runs[i].0, runs[i].0), (runs[i].0, runs[i].0));
    }
}

/// One of the rows goes to the trail of the project.
pub open spec fn has_row_of(rows: Seq<AuditRow>, project: Seq<char>) -> bool {
    exists|i: int| 0 <= i < rows.len() && (#[trigger] rows[i]).project@ == project
}

/// One of the sessions belongs to the run.
pub open spec fn has_session_of(
    sessions: Seq<SessionSnapshot>,
    project: Seq<char>,
    epic: Seq<char>,
) -> bool {
    exists|k: int|
        0 <= k < sessions.len() && (#[trigger] sessions[k]).project@ == project
            && sessions[k].epic@ == epic
}

/// The rows of the parker are about a run as a whole: they go to the trail of its project,
/// name its epic, and neither generation nor session.
pub proof fn law_what_the_rows_of_the_parker_say(
    row: AuditRow,
    run: Run,
    reason: Seq<char>,
    error: Seq<char>,
)
    ensures
        is_external_row(row, run, reason) || is_no_reset_row(row, run) || is_arm_failed_row(
            row,
            run,
            error,
        ) ==> row.project@ == run.0 && row.epic@ == run.1 && row.event == AuditEventKind::Alert
            && row.generation == 0 && row.session_id == 0,
        is_external_row(row, run, reason) ==> (
        row.details matches AuditDetails::ExternalPark { reason: text } && text@ == reason),
        is_no_reset_row(row, run) ==> (
        row.details matches AuditDetails::ParkNoResetTime { epic } && epic@ == run.1),
        is_arm_failed_row(row, run, error) ==> (
        row.details matches AuditDetails::ParkTimerArmFailed { epic, error: text } && epic@
            == run.1 && text@ == error),
{
}

// ---------------------------------------------------------------------------
// The order of runs
// ---------------------------------------------------------------------------

/// Texts are ordered by their first difference; a text comes before every longer one that
/// it begins.
pub proof fn law_the_order_of_texts(a: Seq<char>, b: Seq<char>, k: int)
    requires
        0 <= k <= a.len(),
        k <= b.len(),
        forall|i: int| 0 <= i < k ==> #[trigger] a[i] == b[i],
    ensures
        k == a.len() && k < b.len() ==> text_less(a, b) && !text_less(b, a),
        k == a.len() && k == b.len() ==> !text_less(a, b),
        k < a.len() && k < b.len() && a[k] < b[k] ==> text_less(a, b) && !text_less(b, a),
    decreases k,
{
    if k > 0 {
        assert(a[0] == b[0]);
        let s = a.drop_first();
        let t = b.drop_first();
        assert forall|i: int| 0 <= i < k - 1 implies #[trigger] s[i] == t[i] by {
            assert(a[i + 1] == b[i + 1]);
        }
        law_the_order_of_texts(s, t, k - 1);
    }
}

/// Runs are ordered by project, those of one project by epic.
pub proof fn law_the_order_of_runs(a: Run, b: Run)
    ensures
        a.0 == b.0 ==> run_less(a, b) == text_less(a.1, b.1),
        a.0 != b.0 ==> run_less(a, b) == text_less(a.0, b.0),
{
    crate::runs::lemma_run_order((a.0, a.0), (a.0, a.0));
}

/// A plan is carried out as long as the calendar has room for every run of it: each entry
/// gets its timer, in order.
pub proof fn law_a_plan_is_carried_out(
    timers: Option<Vec<ResumeTimer>>,
    plan: Seq<(Run, int)>,
    reason: Seq<char>,
    now: Moment,
)
    requires
        is_planned_at(timers, plan, reason, now),
        now.nanos < 1_000_000_000,
        forall|i: int|
            0 <= i < plan.len() ==> 0 < (#[trigger] plan[i]).1 && now.secs + plan[i].1
                <= 8_210_266_876_799,
    ensures
        timers matches Some(all) && all@.len() == plan.len() && forall|i: int|
            0 <= i < plan.len() ==> (#[trigger] all@[i]).key.project@ == plan[i].0.0
                && all@[i].key.epic@ == plan[i].0.1 && all@[i].fire_at@ == rfc3339_text(
                (now.secs + plan[i].1) as i64,
                now.nanos,
            ),
{
    if timers is Some {
        let all = timers->0;
        assert forall|i: int| 0 <= i < plan.len() implies (#[trigger] all@[i]).key.project@
            == plan[i].0.0 && all@[i].key.epic@ == plan[i].0.1 && all@[i].fire_at@ == rfc3339_text(
            (now.secs + plan[i].1) as i64,
            now.nanos,
        ) by {
            assert(is_resume_timer(all@[i], plan[i], reason, now));
        }
    }
}

/// Of two runs in an ascending list the first has the lesser project, or the lesser epic of
/// the same project; none stands twice.
pub proof fn law_what_ascends(runs: Seq<Run>, i: int, j: int)
    requires
        ascending(runs),
        0 <= i < j < runs.len(),
    ensures
        text_less(runs[i].0, runs[j].0) || (runs[i].0 == runs[j].0 && text_less(
            runs[i].1,
            runs[j].1,
        )),
        runs[i] != runs[j],
{
    assert(run_less(runs[i], runs[j]));
    crate::runs::lemma_run_order(runs[i], runs[j]);
}

/// `sorted` has every run of `runs` once, in order, and no other.
pub proof fn law_what_is_sorted(sorted: Seq<Run>, runs: Seq<Run>)
    requires
        is_sorted_set(sorted, runs),
    ensures
        forall|k: int| 0 <= k < runs.len() ==> sorted.contains(#[trigger] runs[k]),
        forall|i: int| 0 <= i < sorted.len() ==> runs.contains(#[trigger] sorted[i]),
        forall|i: int, j: int|
            0 <= i < j < sorted.len() ==> run_less(#[trigger] sorted[i], #[trigger] sorted[j]),
        sorted.no_duplicates(),
{
    assert forall|k: int| 0 <= k < runs.len() implies sorted.contains(#[trigger] runs[k]) by {
        assert(runs.contains(runs[k]));
    }
    assert forall|i: int| 0 <= i < sorted.len() implies runs.contains(#[trigger] sorted[i]) by {
        assert(sorted.contains(sorted[i]));
    }
    assert forall|i: int, j: int| 0 <= i < sorted.len() && 0 <= j < sorted.len() && i != j
        implies sorted[i] != sorted[j] by {
        if i < j {
            law_what_ascends(sorted, i, j);
        } else {
            law_what_ascends(sorted, j, i);
        }
    }
}

/// A session that works holds the sweep open unless it was skipped; one that is asked to
/// park does so while it is instructed, one that is asked to hand off too, skipped or not;
/// one whose handoff is written always does, one at its end never.
pub proof fn law_who_holds_a_sweep_open(has_pending: bool, failed: bool)
    ensures
        holds_open(SupervisorState::Working, has_pending, failed) == !failed,
        holds_open(SupervisorState::ParkRequested, has_pending, failed) == (!failed
            && has_pending),
        holds_open(SupervisorState::HandoffRequested, has_pending, failed) == has_pending,
        holds_open(SupervisorState::HandoffWritten, has_pending, failed),
        !holds_open(SupervisorState::Killed, has_pending, failed),
        !holds_open(SupervisorState::Parked, has_pending, failed),
        !holds_open(SupervisorState::Dead, has_pending, failed),
{
}

/// A new timer replaces none, one at an earlier moment, and one whose text names no moment;
/// it replaces none at the same moment or later.
pub proof fn law_which_timer_is_replaced(existing: Option<Seq<char>>, new: Moment)
    ensures
        existing is None ==> replaces(existing, new),
        existing matches Some(text) ==> match rfc3339_moment(text) {
            None => replaces(existing, new),
            Some((secs, nanos)) => replaces(existing, new) <==> secs < new.secs || (secs
                == new.secs && nanos < new.nanos),
        },
{
}

/// Of two moments one comes before the other by the second, then by the nanosecond.
pub proof fn law_the_order_of_moments(a: Moment, b: Moment)
    ensures
        a.before(b) <==> a.secs < b.secs || (a.secs == b.secs && a.nanos < b.nanos),
        a.later(b) == (if a.secs < b.secs || (a.secs == b.secs && a.nanos < b.nanos) {
            b
        } else {
            a
        }),
{
}

} // verus!
