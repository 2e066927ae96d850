//! What the progress tracker promises of trips, counts and alerts.

use vstd::prelude::*;
use crate::audit::{AuditDetails, AuditEventKind, AuditRow};
use crate::handoff_file::opt_view;
use crate::progress::{
    candidate, is_breaker_row, is_churn_row, live_of, own_event, Counter, ObservedEvent,
    ProgressModel,
};
use crate::runs::Run;
use crate::session::{SessionSnapshot, SupervisorState};
use crate::table::{distinct_keys, lemma_lookup, lemma_lookup_at, lemma_put, lookup};

verus! {

// ---------------------------------------------------------------------------
// Who is parked
// ---------------------------------------------------------------------------

/// The session at `k` is listed, works, and belongs to `epic` of `project`.
pub open spec fn works_on(
    sessions: Seq<SessionSnapshot>,
    k: int,
    project: Seq<char>,
    epic: Seq<char>,
) -> bool {
    0 <= k < sessions.len() && sessions[k].project@ == project && sessions[k].epic@ == epic
        && sessions[k].state == SupervisorState::Working
}

/// The session at `k` works on the run, and every one that does and is listed behind it is
/// of a lower generation, every other of none higher.
pub open spec fn is_foremost(
    sessions: Seq<SessionSnapshot>,
    k: int,
    project: Seq<char>,
    epic: Seq<char>,
) -> bool {
    &&& works_on(sessions, k, project, epic)
    &&& forall|j: int| #[trigger]
        works_on(sessions, j, project, epic) ==> sessions[j].generation <= sessions[k].generation
            && (j > k ==> sessions[j].generation < sessions[k].generation)
}

/// The session that a trip parks is listed, works and belongs to the run that tripped. No
/// other working session of the run is of a higher generation; among equals it is the last
/// listed. Where a listed session of the run works, one is parked; a session of another
/// epic or project never is.
pub proof fn law_a_trip_parks_a_session_of_its_own_run(
    sessions: Seq<SessionSnapshot>,
    project: Seq<char>,
    epic: Seq<char>,
)
    ensures
        candidate(live_of(sessions, (project, epic))) is Some <==> exists|k: int| #[trigger]
            works_on(sessions, k, project, epic),
        candidate(live_of(sessions, (project, epic))) matches Some(c) ==> exists|k: int| #[trigger]
            is_foremost(sessions, k, project, epic) && sessions[k].session_id == c.0
                && sessions[k].generation == c.1,
    decreases sessions.len(),
{
    let run: Run = (project, epic);
    let live = live_of(sessions, run);
    if sessions.len() > 0 {
        let init = sessions.drop_last();
        let before = live_of(init, run);
        let end = sessions.len() - 1;
        let last = sessions.last();
        assert(sessions[end] == last);
        law_a_trip_parks_a_session_of_its_own_run(init, project, epic);
        assert forall|k: int| 0 <= k < end implies works_on(init, k, project, epic)
            == #[trigger] works_on(sessions, k, project, epic) by {}
        if live.len() > before.len() {
            assert(live.drop_last() =~= before);
            assert(live.last() == (last.session_id, last.generation, last.state));
        } else {
            assert(live == before);
        }
        if works_on(sessions, end, project, epic) && (candidate(before) matches Some(b) ==> b.1
            <= last.generation) {
            assert(is_foremost(sessions, end, project, epic)) by {
                assert forall|j: int| #[trigger] works_on(sessions, j, project, epic) implies
                    sessions[j].generation <= last.generation && (j > end
                    ==> sessions[j].generation < last.generation) by {
                    if j < end {
                        assert(works_on(init, j, project, epic));
                        let b = candidate(before)->0;
                        let k = choose|k: int| #[trigger]
                            is_foremost(init, k, project, epic) && init[k].session_id == b.0
                                && init[k].generation == b.1;
                        assert(works_on(init, j, project, epic));
                    }
                }
            }
            assert(candidate(live) == Some((last.session_id, last.generation)));
        } else {
            assert(candidate(live) == candidate(before));
            if candidate(before) is Some {
                let b = candidate(before)->0;
                let k = choose|k: int| #[trigger]
                    is_foremost(init, k, project, epic) && init[k].session_id == b.0
                        && init[k].generation == b.1;
                assert(works_on(sessions, k, project, epic));
                assert(is_foremost(sessions, k, project, epic)) by {
                    assert forall|j: int| #[trigger] works_on(sessions, j, project, epic) implies
                        sessions[j].generation <= sessions[k].generation && (j > k
                        ==> sessions[j].generation < sessions[k].generation) by {
                        if j < end {
                            assert(works_on(init, j, project, epic));
                        }
                    }
                }
            }
        }
        if exists|k: int| #[trigger] works_on(sessions, k, project, epic) {
            let k = choose|k: int| #[trigger] works_on(sessions, k, project, epic);
            if k < end {
                assert(works_on(init, k, project, epic));
            }
        }
    } else {
        assert forall|k: int| !#[trigger] works_on(sessions, k, project, epic) by {}
    }
}

// ---------------------------------------------------------------------------
// What counts
// ---------------------------------------------------------------------------

/// Every event counts but a park, an injection, and an alert of the tracker itself.
pub proof fn law_every_other_event_counts(event: AuditEventKind, kind: Option<Seq<char>>)
    ensures
        own_event(event, kind) <==> (event == AuditEventKind::Park || event
            == AuditEventKind::Inject || (event == AuditEventKind::Alert && (kind == Some(
            "circuit_breaker"@,
        ) || kind == Some("handoff_churn"@)))),
{
}

/// An event at the HEAD that is counted against adds one, up to the largest count, and
/// leaves the latch; an event at another HEAD starts the count anew, against that HEAD.
pub proof fn law_one_event_counts_once(counter: Counter, head: Seq<char>)
    ensures
        ({
            let next = counter.next(Some(head));
            &&& next.observed == Some(head)
            &&& counter.observed == Some(head) && counter.count < u32::MAX ==> next.count
                == counter.count + 1
            &&& counter.observed == Some(head) && counter.count == u32::MAX ==> next.count
                == u32::MAX
            &&& counter.observed == Some(head) ==> next.latched == counter.latched
            &&& counter.observed != Some(head) ==> next.count == 0 && !next.latched
        }),
{
}

/// A trip is due once so many events came, or while one that found nobody is latched.
pub proof fn law_when_a_trip_is_due(counter: Counter, breaker_events: u32)
    ensures
        counter.due(breaker_events) <==> (counter.latched || counter.count >= breaker_events),
{
}

/// What is counted for one run leaves the breaker of every other run as it was, also of an
/// equally named epic of another project, and every baseline; the working directory stays.
pub proof fn law_a_count_is_of_its_own_run(
    m: ProgressModel,
    run: Run,
    counter: Counter,
    other: Run,
)
    requires
        m.wf(),
        lookup(m.epics, run) is Some,
    ensures
        m.with_counter(run, counter).wf(),
        m.with_counter(run, counter).baselines == m.baselines,
        lookup(m.with_counter(run, counter).epics, run) matches Some(b) && b.counter == counter
            && b.working_dir == lookup(m.epics, run)->0.working_dir,
        other != run ==> lookup(m.with_counter(run, counter).epics, other) == lookup(
            m.epics,
            other,
        ),
{
    lemma_put(
        m.epics,
        run,
        crate::progress::BreakerModel { counter, ..lookup(m.epics, run)->0 },
    );
}

/// A handoff is held against the HEAD that its own generation started from: it is a request
/// of the session at the generation that the baseline is of, and the baseline's HEAD is
/// known.
pub proof fn law_churn_is_held_against_the_own_generation(m: ProgressModel, event: ObservedEvent)
    ensures
        m.churn_baseline(event) is Some <==> (event.event == AuditEventKind::Handoff && opt_view(
            event.phase,
        ) == Some("requested"@) && (lookup(m.baselines, event.session_id) matches Some(b)
            && b.generation == event.generation && b.baseline_head is Some)),
        m.churn_baseline(event) is Some ==> m.churn_baseline(event) == lookup(
            m.baselines,
            event.session_id,
        )->0.baseline_head,
{
}

/// A session of the run, of this project and this epic, has a baseline.
pub open spec fn still_tracked(m: ProgressModel, run: Run) -> bool {
    exists|id: u32|
        #![trigger lookup(m.baselines, id)]
        lookup(m.baselines, id) matches Some(b) && b.run.0 == run.0 && b.run.1 == run.1
}

/// A run has a baseline as long as any session of the run, of this project and this epic,
/// has one.
pub proof fn law_a_run_is_tracked_while_a_session_is(m: ProgressModel, run: Run)
    requires
        distinct_keys(m.baselines),
    ensures
        m.has_baseline(run) <==> still_tracked(m, run),
{
    if m.has_baseline(run) {
        let i = choose|i: int|
            0 <= i < m.baselines.len() && (#[trigger] m.baselines[i]).1.run == run;
        lemma_lookup_at(m.baselines, i);
        assert(lookup(m.baselines, m.baselines[i].0) is Some);
    }
    if still_tracked(m, run) {
        let id = choose|id: u32|
            #![trigger lookup(m.baselines, id)]
            lookup(m.baselines, id) matches Some(b) && b.run.0 == run.0 && b.run.1 == run.1;
        lemma_lookup(m.baselines, id);
        let i = choose|i: int|
            0 <= i < m.baselines.len() && (#[trigger] m.baselines[i]).0 == id && lookup(
                m.baselines,
                id,
            ) == Some(m.baselines[i].1);
        assert(m.baselines[i].1.run == run);
    }
}

// ---------------------------------------------------------------------------
// The alerts
// ---------------------------------------------------------------------------

/// The alert of a trip goes to the trail of the run's project, names its epic, the parked
/// session and its generation, and says how many events came at which HEAD.
pub proof fn law_what_the_alert_of_a_trip_says(
    row: AuditRow,
    run: Run,
    generation: u32,
    session_id: u32,
    counter: Counter,
)
    ensures
        is_breaker_row(row, run, generation, session_id, counter) <==> (row.project@ == run.0
            && row.epic@ == run.1 && row.event == AuditEventKind::Alert && row.generation
            == generation && row.session_id == session_id && (
        row.details matches AuditDetails::CircuitBreaker { epic, events, head } && epic@ == run.1
            && events == counter.count && opt_view(head) == counter.observed)),
{
}

/// The alert of a handoff without a commit goes to the trail of the project, names the
/// epic, the session and the generation, and says which HEAD did not move.
pub proof fn law_what_the_alert_of_a_churn_says(
    row: AuditRow,
    project: Seq<char>,
    event: ObservedEvent,
    baseline: Seq<char>,
)
    ensures
        is_churn_row(row, project, event, baseline) <==> (row.project@ == project && row.epic@
            == event.epic@ && row.event == AuditEventKind::Alert && row.generation
            == event.generation && row.session_id == event.session_id && (
        row.details matches AuditDetails::HandoffChurn { baseline_head } && baseline_head@
            == baseline)),
{
}

/// What an observed event is goes by its own kind and phase.
pub proof fn law_what_an_observed_event_is(event: ObservedEvent)
    ensures
        event.own() <==> event.event == AuditEventKind::Park || event.event
            == AuditEventKind::Inject || (event.event == AuditEventKind::Alert && (
        event.kind matches Some(kind) && (kind@ == "circuit_breaker"@ || kind@
            == "handoff_churn"@))),
        event.requests_handoff() <==> event.event == AuditEventKind::Handoff && (
        event.phase matches Some(phase) && phase@ == "requested"@),
{
}

/// The first generation of a run starts its breaker anew; a later one keeps the count, the
/// latch and the observed HEAD, and so does any where a breaker is known. The working
/// directory is that of the generation.
pub proof fn law_what_a_registration_keeps(
    m: ProgressModel,
    run: Run,
    generation: u32,
    dir: Seq<char>,
)
    ensures
        ({
            let b = m.registered_breaker(run, generation, dir);
            &&& b.working_dir == dir
            &&& generation == 1 || lookup(m.epics, run) is None ==> b.counter.observed is None
                && b.counter.count == 0 && !b.counter.latched
            &&& generation != 1 ==> (lookup(m.epics, run) matches Some(old) ==> b.counter
                == old.counter)
        }),
{
}

} // verus!
