//! What holds of the parker as a whole.

use vstd::prelude::*;
use crate::clock::{rfc3339_moment, rfc3339_text, Moment};
use crate::injector::InjectorModel;
use crate::parker::{
    add_typed, allclears, are_resume_timers, armed_for, free_offset, is_park_order, is_resume_timer,
    is_timer_step, lemma_count_from, lemma_free_offset, merged, offsets, parkable_of, parked_for,
    parked_otherwise, parks_before, resume_trigger_text, resumed, resumes, winddowns, with_reasons,
    within_calendar, ArmedTimer, ParkerModel, ReleasedRun, ResumeTimer, TimerStep, Winddowns,
    GH_AUTH_LOST, PARK_REASON_ALLOWANCE,
};
use crate::ladder::PendingKind;
use crate::pending::PendingModel;
use crate::runs::Run;
use crate::session::{SessionSnapshot, SupervisorState};
use crate::table::{distinct_keys, lemma_filter_distinct, lemma_put, lemma_without, lookup, put};

verus! {

/// The reset time of a sweep does not depend on the order of its crossings, and a
/// crossing without one never loses it.
pub proof fn law_reset_times_merge(a: Option<Moment>, b: Option<Moment>, c: Option<Moment>)
    ensures
        merged(a, b) == merged(b, a),
        merged(merged(a, b), c) == merged(a, merged(b, c)),
        merged(a, a) == a,
        merged(a, None) == a,
        a is Some ==> merged(a, b) is Some && !merged(a, b)->0.before(a->0),
{
}

/// A second crossing never starts a second sweep: it only folds its reset time in.
pub proof fn law_a_crossing_joins_the_sweep(m: ParkerModel, resets_at: Option<Moment>)
    requires
        m.engaged,
    ensures
        ({
            let after = m.after_hard(resets_at);
            &&& after.engaged
            &&& after.failed == m.failed
            &&& after.parked == m.parked
            &&& after.resets_at == merged(m.resets_at, resets_at)
            &&& after.wound_down == m.wound_down
            &&& after.park_reasons == m.park_reasons
        }),
{
}

/// An outside condition that joins a sweep changes nothing about it: its timers are
/// not taken away.
pub proof fn law_a_condition_joins_the_sweep(m: ParkerModel, reason: Seq<char>)
    requires
        m.engaged,
    ensures
        m.after_external(reason) == m,
{
}

/// A crossing that joins a condition's sweep gives it timers again, and a release
/// of the condition is no longer its own.
pub proof fn law_a_crossing_takes_a_condition_over(
    m: ParkerModel,
    reason: Seq<char>,
    resets_at: Option<Moment>,
)
    requires
        !m.engaged,
    ensures
        m.after_external(reason).suppress_timers,
        !m.after_external(reason).after_hard(resets_at).suppress_timers,
        m.after_external(reason).after_hard(resets_at).reason() == PARK_REASON_ALLOWANCE@,
{
}

/// Every run of a sweep that is done has the sweep's reason, and no other run's
/// reason changed.
pub proof fn law_reasons_are_recorded(
    reasons: Seq<(Run, Seq<char>)>,
    runs: Seq<Run>,
    reason: Seq<char>,
    run: Run,
)
    requires
        distinct_keys(reasons),
    ensures
        distinct_keys(with_reasons(reasons, runs, reason)),
        runs.contains(run) ==> lookup(with_reasons(reasons, runs, reason), run) == Some(reason),
        !runs.contains(run) ==> lookup(with_reasons(reasons, runs, reason), run) == lookup(
            reasons,
            run,
        ),
    decreases runs.len(),
{
    if runs.len() > 0 {
        let init = runs.drop_last();
        law_reasons_are_recorded(reasons, init, reason, run);
        let before = with_reasons(reasons, init, reason);
        lemma_put(before, runs.last(), reason);
        assert(runs[runs.len() - 1] == runs.last());
        if runs.contains(run) && run != runs.last() {
            let i = choose|i: int| 0 <= i < runs.len() && runs[i] == run;
            assert(init[i] == run);
            assert(init.contains(run));
        }
        if init.contains(run) {
            let i = choose|i: int| 0 <= i < init.len() && init[i] == run;
            assert(runs[i] == run);
        }
    }
}

/// A release resumes the runs that its own condition stopped, each once: they are
/// gone afterwards, and every other run stays as it is parked.
pub proof fn law_a_release_takes_its_own(
    reasons: Seq<(Run, Seq<char>)>,
    reason: Seq<char>,
    run: Run,
)
    requires
        distinct_keys(reasons),
    ensures
        ({
            let left = reasons.filter(parked_otherwise(reason));
            &&& !parked_for(left, reason, run)
            &&& parked_for(reasons, reason, run) ==> lookup(left, run) is None
            &&& !parked_for(reasons, reason, run) ==> lookup(left, run) == lookup(reasons, run)
        }),
{
    lemma_filter_distinct(reasons, parked_otherwise(reason));
}

/// A run that was parked for the allowance is not touched by restored credentials.
pub proof fn law_allowance_parks_stay(reasons: Seq<(Run, Seq<char>)>, run: Run)
    requires
        distinct_keys(reasons),
        parked_for(reasons, PARK_REASON_ALLOWANCE@, run),
    ensures
        !parked_for(reasons, GH_AUTH_LOST@, run),
        parked_for(
            reasons.filter(parked_otherwise(GH_AUTH_LOST@)),
            PARK_REASON_ALLOWANCE@,
            run,
        ),
{
    reveal_strlit("allowance");
    reveal_strlit("gh_auth_lost");
    assert(PARK_REASON_ALLOWANCE@.len() != GH_AUTH_LOST@.len());
    law_a_release_takes_its_own(reasons, GH_AUTH_LOST@, run);
}

/// A second release of the same condition takes nothing.
pub proof fn law_a_second_release_takes_nothing(m: ParkerModel, reason: Seq<char>, run: Run)
    requires
        m.wf(),
    ensures
        !parked_for(m.after_release(reason).park_reasons, reason, run),
{
    law_a_release_takes_its_own(m.park_reasons, reason, run);
}

/// What happens to a sweep on its way, short of a hard crossing.
pub ghost enum SweepMove {
    /// A session was parked, or its handoff absorbed: its run is recorded.
    Parked { run: Run },
    /// A session was skipped.
    Skipped { session_id: u32 },
    /// The all-clear was held back.
    AllClear,
    /// A condition was engaged.
    Engaged { reason: Seq<char> },
}

impl SweepMove {
    /// The parker afterwards.
    pub open spec fn after(self, m: ParkerModel) -> ParkerModel {
        match self {
            SweepMove::Parked { run } => ParkerModel { parked: m.parked.insert(run), ..m },
            SweepMove::Skipped { session_id } => ParkerModel {
                failed: m.failed.insert(session_id),
                ..m
            },
            SweepMove::AllClear => ParkerModel { pending_allclear: true, ..m },
            SweepMove::Engaged { reason } => m.after_external(reason),
        }
    }
}

/// The parker after all the moves.
pub open spec fn swept(m: ParkerModel, moves: Seq<SweepMove>) -> ParkerModel
    decreases moves.len(),
{
    if moves.len() == 0 {
        m
    } else {
        moves.last().after(swept(m, moves.drop_last()))
    }
}

proof fn lemma_swept(m: ParkerModel, moves: Seq<SweepMove>)
    requires
        m.wf(),
        m.engaged,
    ensures
        swept(m, moves).wf(),
        swept(m, moves).engaged,
        swept(m, moves).external_reason == m.external_reason,
        swept(m, moves).pending_release == m.pending_release,
        swept(m, moves).park_reasons == m.park_reasons,
    decreases moves.len(),
{
    if moves.len() > 0 {
        lemma_swept(m, moves.drop_last());
    }
}

proof fn lemma_resumed_has(
    released: Seq<ReleasedRun>,
    sessions: Seq<SessionSnapshot>,
    timers: Seq<ArmedTimer>,
    k: int,
) -> (i: int)
    requires
        0 <= k < released.len(),
        resumes(released[k], sessions, timers),
    ensures
        0 <= i < resumed(released, sessions, timers).len(),
        resumed(released, sessions, timers)[i].0 == released[k].key@,
    decreases released.len(),
{
    let init = resumed(released.drop_last(), sessions, timers);
    if k == released.len() - 1 {
        init.len() as int
    } else {
        assert(released.drop_last()[k] == released[k]);
        lemma_resumed_has(released.drop_last(), sessions, timers, k)
    }
}

/// A release that comes while its sweep still parks is not lost. It takes nothing at
/// once, where no run is recorded for it yet. However the sweep goes on, its end hands
/// the release back, and the release then takes every run that the sweep parked: each
/// that is still worth resuming gets its timer, for what was fixed.
pub proof fn law_a_release_in_mid_sweep_ends_in_timers(
    m: ParkerModel,
    reason: Seq<char>,
    moves: Seq<SweepMove>,
    ended_with: Seq<Run>,
    released: Seq<ReleasedRun>,
    sessions: Seq<SessionSnapshot>,
    timers: Seq<ArmedTimer>,
    armed: Seq<ResumeTimer>,
    now: Moment,
    k: int,
)
    requires
        m.wf(),
        m.engaged,
        m.external_reason == Some(reason),
        forall|run: Run| !#[trigger] parked_for(m.park_reasons, reason, run),
        ended_with.to_set() == swept(m.after_release(reason), moves).parked,
        0 <= k < released.len(),
        swept(m.after_release(reason), moves).parked.contains(released[k].key@),
        resumes(released[k], sessions, timers),
        are_resume_timers(armed, resumed(released, sessions, timers), reason, now),
    ensures
        ({
            let end = swept(m.after_release(reason), moves);
            &&& end.pending_release == Some(reason)
            &&& parked_for(end.after_completion(ended_with).park_reasons, reason, released[k].key@)
            &&& end.after_completion(ended_with).pending_release is None
            &&& exists|i: int|
                0 <= i < armed.len() && (#[trigger] armed[i]).key@ == released[k].key@
                    && armed[i].reason@ == resume_trigger_text(reason)
        }),
{
    let told = m.after_release(reason);
    let run = released[k].key@;
    law_a_release_takes_its_own(m.park_reasons, reason, run);
    lemma_filter_distinct(m.park_reasons, parked_otherwise(reason));
    lemma_swept(told, moves);
    let end = swept(told, moves);
    assert(ended_with.to_set().contains(run));
    law_reasons_are_recorded(end.park_reasons, ended_with, reason, run);
    let i = lemma_resumed_has(released, sessions, timers, k);
    assert(is_resume_timer(armed[i], resumed(released, sessions, timers)[i], reason, now));
}

/// Two runs of the same jitter that are released together resume one second apart: the
/// first at its jitter, the other a second later.
pub proof fn law_colliding_resumes_are_a_second_apart(
    released: Seq<ReleasedRun>,
    sessions: Seq<SessionSnapshot>,
    timers: Seq<ArmedTimer>,
    now: Moment,
)
    requires
        released.len() == 2,
        resumes(released[0], sessions, timers),
        resumes(released[1], sessions, timers),
        released[0].jitter == released[1].jitter,
        now.valid(),
        within_calendar(resumed(released, sessions, timers), now),
    ensures
        ({
            let jitter = released[0].jitter as int;
            &&& resumed(released, sessions, timers) == seq![
                (released[0].key@, jitter),
                (released[1].key@, jitter + 1),
            ]
            &&& now.plus(jitter).secs == now.secs + jitter
            &&& now.plus(jitter + 1).secs == now.plus(jitter).secs + 1
        }),
{
    let jitter = released[0].jitter as int;
    let one = released.drop_last();
    let none = one.drop_last();
    assert(none =~= Seq::empty());
    assert(one.last() == released[0]);
    assert(released.last() == released[1]);
    let plan_none = resumed(none, sessions, timers);
    assert(plan_none =~= Seq::empty());
    assert(offsets(plan_none) =~= Seq::empty());
    lemma_free_offset(offsets(plan_none), jitter);
    lemma_count_from(offsets(plan_none), jitter);
    let plan_one = resumed(one, sessions, timers);
    assert(plan_one =~= seq![(released[0].key@, jitter)]);
    let taken = offsets(plan_one);
    assert(taken =~= seq![jitter]);
    assert(taken[0] == jitter);
    assert(taken.contains(jitter));
    lemma_count_from(taken, jitter);
    lemma_free_offset(taken, jitter);
    lemma_free_offset(taken, jitter + 1);
    let next = free_offset(taken, jitter);
    assert(next == jitter + 1) by {
        if next > jitter + 1 {
            assert(taken.contains(jitter + 1));
        }
    }
    let plan = resumed(released, sessions, timers);
    assert(plan =~= seq![(released[0].key@, jitter), (released[1].key@, jitter + 1)]);
    assert(plan[1].1 == jitter + 1);
}

/// A sweep that nothing holds open has parked everything it could: each session that
/// still works was skipped, and no handoff is about to complete.
pub proof fn law_a_sweep_ends_with_nothing_to_park(
    m: ParkerModel,
    injector: InjectorModel,
    sessions: Seq<SessionSnapshot>,
    i: int,
)
    requires
        !m.blocked(injector, sessions),
        0 <= i < sessions.len(),
    ensures
        sessions[i].state is Working ==> m.failed.contains(sessions[i].session_id),
        !(sessions[i].state is HandoffWritten),
        sessions[i].state is HandoffRequested ==> !injector.pends(sessions[i].session_id),
        sessions[i].state is ParkRequested ==> m.failed.contains(sessions[i].session_id)
            || !injector.pends(sessions[i].session_id),
{
    assert(!m.blocks(injector, sessions[i]));
}

/// A park is not lost: while it is under way the sweep does not end, and once its run is
/// recorded the sweep ends with the run among its own.
pub proof fn law_a_park_is_not_lost(
    m: ParkerModel,
    injector: InjectorModel,
    sessions: Seq<SessionSnapshot>,
    i: int,
    ended_with: Seq<Run>,
)
    requires
        0 <= i < sessions.len(),
        m.parking(injector, sessions[i]),
        ended_with.to_set() == m.parked.insert(sessions[i].run()),
    ensures
        m.blocked(injector, sessions),
        ended_with.contains(sessions[i].run()),
{
    assert(m.blocks(injector, sessions[i]));
    assert(ended_with.to_set().contains(sessions[i].run()));
}

/// The sessions that a sweep tries are listed, work, have nothing in flight and were
/// not skipped: a session in a handoff is never parked.
pub proof fn law_candidates_are_parkable(
    m: ParkerModel,
    sessions: Seq<SessionSnapshot>,
    percents: Seq<(u32, u64)>,
    k: int,
)
    requires
        0 <= k < parkable_of(m, sessions, percents).len(),
    ensures
        exists|i: int|
            0 <= i < sessions.len() && m.parkable(#[trigger] sessions[i]) && parkable_of(
                m,
                sessions,
                percents,
            )[k] == (sessions[i].session_id, lookup(percents, sessions[i].session_id)),
    decreases sessions.len(),
{
    if sessions.len() > 0 {
        let init = sessions.drop_last();
        let before = parkable_of(m, init, percents);
        if k < before.len() {
            law_candidates_are_parkable(m, init, percents, k);
            let i = choose|i: int|
                0 <= i < init.len() && m.parkable(#[trigger] init[i]) && before[k] == (
                    init[i].session_id,
                    lookup(percents, init[i].session_id),
                );
            assert(sessions[i] == init[i]);
        } else {
            assert(sessions[sessions.len() - 1] == sessions.last());
        }
    }
}

/// The first session that a sweep tries has the highest context reading; one without
/// a reading comes first only where none has one.
pub proof fn law_highest_reading_first(
    ordered: Seq<(u32, Option<u64>)>,
    entries: Seq<(u32, Option<u64>)>,
    i: int,
)
    requires
        is_park_order(ordered, entries),
        0 <= i < ordered.len(),
    ensures
        ordered[i].1 is Some ==> ordered[0].1 is Some && ordered[0].1->0 >= ordered[i].1->0,
{
    if i > 0 {
        assert(!parks_before(ordered[i], ordered[0]));
    }
}

// ---------------------------------------------------------------------------
// Timers
// ---------------------------------------------------------------------------

/// The timer is that of `epic` in `project`: both are its own.
pub open spec fn is_timer_of(timer: ArmedTimer, project: Seq<char>, epic: Seq<char>) -> bool {
    timer.key.project@ == project && timer.key.epic@ == epic
}

/// Without a timer of its own nothing counts as armed for a run.
proof fn lemma_none_armed(timers: Seq<ArmedTimer>, project: Seq<char>, epic: Seq<char>)
    requires
        forall|i: int|
            0 <= i < timers.len() ==> !is_timer_of(#[trigger] timers[i], project, epic),
    ensures
        armed_for(timers, (project, epic)) is None,
    decreases timers.len(),
{
    if timers.len() > 0 {
        let rest = timers.drop_first();
        assert(!is_timer_of(timers[0], project, epic));
        assert forall|i: int| 0 <= i < rest.len() implies !is_timer_of(
            #[trigger] rest[i],
            project,
            epic,
        ) by {
            assert(rest[i] == timers[i + 1]);
        }
        lemma_none_armed(rest, project, epic);
    }
}

/// The first timer of its own is what counts.
proof fn lemma_first_armed(timers: Seq<ArmedTimer>, project: Seq<char>, epic: Seq<char>, k: int)
    requires
        0 <= k < timers.len(),
        is_timer_of(timers[k], project, epic),
        forall|i: int| 0 <= i < k ==> !is_timer_of(#[trigger] timers[i], project, epic),
    ensures
        armed_for(timers, (project, epic)) == Some(timers[k].fire_at@),
    decreases timers.len(),
{
    if k > 0 {
        let rest = timers.drop_first();
        assert(!is_timer_of(timers[0], project, epic));
        assert forall|i: int| 0 <= i < k - 1 implies !is_timer_of(
            #[trigger] rest[i],
            project,
            epic,
        ) by {
            assert(rest[i] == timers[i + 1]);
        }
        assert(rest[k - 1] == timers[k]);
        lemma_first_armed(rest, project, epic, k - 1);
    }
}

/// Where there is a timer of a run, one is its first.
proof fn lemma_has_first(
    timers: Seq<ArmedTimer>,
    project: Seq<char>,
    epic: Seq<char>,
    k: int,
) -> (first: int)
    requires
        0 <= k < timers.len(),
        is_timer_of(timers[k], project, epic),
    ensures
        0 <= first <= k,
        is_timer_of(timers[first], project, epic),
        forall|i: int| 0 <= i < first ==> !is_timer_of(#[trigger] timers[i], project, epic),
    decreases k,
{
    if exists|i: int| 0 <= i < k && is_timer_of(#[trigger] timers[i], project, epic) {
        let i = choose|i: int| 0 <= i < k && is_timer_of(#[trigger] timers[i], project, epic);
        lemma_has_first(timers, project, epic, i)
    } else {
        k
    }
}

/// The timer that counts as armed for a run is the first whose project and epic are both
/// the run's. A timer of another project counts for nothing, though its epic has the same
/// name, and so does one of another epic of the project.
pub proof fn law_only_its_own_timer_counts_for_a_run(
    timers: Seq<ArmedTimer>,
    project: Seq<char>,
    epic: Seq<char>,
)
    ensures
        armed_for(timers, (project, epic)) is None <==> forall|i: int|
            0 <= i < timers.len() ==> !is_timer_of(#[trigger] timers[i], project, epic),
        forall|i: int|
            0 <= i < timers.len() && is_timer_of(#[trigger] timers[i], project, epic) && (forall|
                j: int,
            |
                0 <= j < i ==> !is_timer_of(#[trigger] timers[j], project, epic)) ==> armed_for(
                timers,
                (project, epic),
            ) == Some(timers[i].fire_at@),
{
    if exists|i: int| 0 <= i < timers.len() && is_timer_of(#[trigger] timers[i], project, epic) {
        let i = choose|i: int|
            0 <= i < timers.len() && is_timer_of(#[trigger] timers[i], project, epic);
        let first = lemma_has_first(timers, project, epic, i);
        lemma_first_armed(timers, project, epic, first);
    } else {
        lemma_none_armed(timers, project, epic);
    }
    assert forall|i: int|
        0 <= i < timers.len() && is_timer_of(#[trigger] timers[i], project, epic) && (forall|
            j: int,
        |
            0 <= j < i ==> !is_timer_of(#[trigger] timers[j], project, epic)) implies armed_for(
        timers,
        (project, epic),
    ) == Some(timers[i].fire_at@) by {
        lemma_first_armed(timers, project, epic, i);
    }
}

/// A parked run whose reset time is known gets a timer whatever is armed for other runs:
/// five minutes and its jitter after the reset. Where a timer of its own is armed, the new
/// one replaces it if it names an earlier moment or none; one at the same moment or later
/// is kept.
pub proof fn law_a_parked_run_gets_its_timer(
    step: TimerStep,
    project: Seq<char>,
    epic: Seq<char>,
    reset: Moment,
    jitter: u32,
    timers: Seq<ArmedTimer>,
)
    requires
        is_timer_step(
            step,
            (project, epic),
            Some(reset),
            jitter,
            armed_for(timers, (project, epic)),
        ),
        reset.nanos < 1_000_000_000,
        reset.secs + 300 + jitter <= i64::MAX,
    ensures
        (forall|i: int| 0 <= i < timers.len() ==> !is_timer_of(#[trigger] timers[i], project, epic))
            ==> step is Arm,
        step matches TimerStep::Arm { timer } ==> timer.key.project@ == project
            && timer.key.epic@ == epic && timer.reason@ == "park"@ && timer.fire_at@ == rfc3339_text(
            (reset.secs + 300 + jitter) as i64,
            reset.nanos,
        ),
        forall|i: int|
            0 <= i < timers.len() && is_timer_of(#[trigger] timers[i], project, epic) && (forall|
                j: int,
            |
                0 <= j < i ==> !is_timer_of(#[trigger] timers[j], project, epic)) ==> {
                let late = reset.secs + 300 + jitter;
                match rfc3339_moment(timers[i].fire_at@) {
                    None => step is Arm,
                    Some((secs, nanos)) => if secs < late || (secs == late && nanos
                        < reset.nanos) {
                        step is Arm
                    } else {
                        step is Keep
                    },
                }
            },
{
    law_only_its_own_timer_counts_for_a_run(timers, project, epic);
}

// ---------------------------------------------------------------------------
// Wind-downs
// ---------------------------------------------------------------------------

/// No session is listed twice.
pub open spec fn listed_once(sessions: Seq<SessionSnapshot>) -> bool {
    forall|i: int, j: int|
        0 <= i < j < sessions.len() ==> (#[trigger] sessions[i]).session_id != (
        #[trigger] sessions[j]).session_id
}

/// Nothing is pending for the session but perhaps an all-clear.
pub open spec fn free_for_winddown(m: InjectorModel, id: u32) -> bool {
    lookup(m.pending, id) matches Some(p) ==> p.kind == PendingKind::WinddownAllClear
}

/// What is pending for a session is a soft wind-down.
pub open spec fn winds_down(m: InjectorModel, id: u32) -> bool {
    lookup(m.pending, id) matches Some(p) && p.kind == PendingKind::SoftWinddown
}

/// Something was typed into the session.
pub open spec fn typed_into(typed: Seq<(u32, Seq<char>)>, id: u32) -> bool {
    exists|i: int| 0 <= i < typed.len() && (#[trigger] typed[i]).0 == id
}

proof fn lemma_armed(
    m: InjectorModel,
    id: u32,
    p: PendingModel,
    state: Option<SupervisorState>,
    now: u128,
)
    requires
        distinct_keys(m.pending),
    ensures
        ({
            let after = m.after_arming(id, p, state, now);
            &&& distinct_keys(after.pending)
            &&& lookup(after.pending, id) matches Some(q) && q.kind == p.kind && q.episode
                == p.episode && q.instruction == p.instruction
            &&& forall|k: u32| k != id ==> #[trigger] lookup(after.pending, k) == lookup(
                m.pending,
                k,
            )
            &&& forall|k: u32| k != id ==> #[trigger] after.idle.contains(k) == m.idle.contains(k)
        }),
{
    lemma_put(m.pending, id, p);
    lemma_put(put(m.pending, id, p), id, p.typed(now));
}

proof fn lemma_typed_more(typed: Seq<(u32, Seq<char>)>, id: u32, text: Option<Seq<char>>)
    ensures
        forall|k: u32| typed_into(typed, k) ==> #[trigger] typed_into(add_typed(typed, id, text), k),
        text is Some ==> typed_into(add_typed(typed, id, text), id),
{
    let more = add_typed(typed, id, text);
    assert forall|k: u32| typed_into(typed, k) implies #[trigger] typed_into(more, k) by {
        let i = choose|i: int| 0 <= i < typed.len() && (#[trigger] typed[i]).0 == k;
        assert(more[i] == typed[i]);
    }
    if text is Some {
        assert(more[typed.len() as int].0 == id);
    }
}

/// After a soft crossing every listed session that works, has nothing in flight and
/// nothing pending but an all-clear has a pending wind-down and is remembered for the
/// all-clear, wherever it stands in the listing; one that was idle has it typed at once.
/// Every other session is left as it was.
pub proof fn law_a_soft_crossing_winds_every_free_session_down(
    start: Winddowns,
    sessions: Seq<SessionSnapshot>,
    now: u128,
)
    requires
        distinct_keys(start.injector.pending),
        listed_once(sessions),
    ensures
        ({
            let end = winddowns(start, sessions, now);
            &&& distinct_keys(end.injector.pending)
            &&& forall|k: int|
                0 <= k < sessions.len() && (#[trigger] sessions[k]).state
                    == SupervisorState::Working && sessions[k].in_flight is None
                    && free_for_winddown(start.injector, sessions[k].session_id) ==> {
                    let id = sessions[k].session_id;
                    &&& winds_down(end.injector, id)
                    &&& end.wound.contains(id)
                    &&& start.injector.idle.contains(id) ==> typed_into(end.typed, id)
                }
            &&& forall|id: u32|
                (forall|k: int|
                    0 <= k < sessions.len() && (#[trigger] sessions[k]).session_id == id ==> !(
                    sessions[k].state == SupervisorState::Working && sessions[k].in_flight is None
                        && free_for_winddown(start.injector, id))) ==> #[trigger] lookup(
                    end.injector.pending,
                    id,
                ) == lookup(start.injector.pending, id) && end.wound.contains(id)
                    == start.wound.contains(id)
            &&& forall|id: u32|
                (forall|k: int|
                    0 <= k < sessions.len() ==> (#[trigger] sessions[k]).session_id != id)
                    ==> #[trigger] end.injector.idle.contains(id)
                    == start.injector.idle.contains(id)
            &&& forall|id: u32| typed_into(start.typed, id) ==> #[trigger] typed_into(end.typed, id)
        }),
    decreases sessions.len(),
{
    if sessions.len() > 0 {
        let init = sessions.drop_last();
        let s = sessions.last();
        let id = s.session_id;
        assert(sessions[sessions.len() - 1] == s);
        assert forall|i: int| 0 <= i < init.len() implies #[trigger] init[i] == sessions[i] by {}
        assert(listed_once(init));
        law_a_soft_crossing_winds_every_free_session_down(start, init, now);
        let w = winddowns(start, init, now);
        let end = winddowns(start, sessions, now);
        assert forall|k: int| 0 <= k < init.len() implies (#[trigger] init[k]).session_id != id by {
            assert(sessions[k].session_id != sessions[sessions.len() - 1].session_id);
        }
        assert(lookup(w.injector.pending, id) == lookup(start.injector.pending, id));
        assert(w.wound.contains(id) == start.wound.contains(id));
        assert(w.injector.idle.contains(id) == start.injector.idle.contains(id));
        let opened = w.injector.with_next_episode(id);
        let fresh = w.injector.fresh_winddown(s, now);
        lemma_armed(opened, id, fresh, Some(s.state), now);
        let text = w.injector.typed_on_winddown(s, Some(s.state), now);
        lemma_typed_more(w.typed, id, text);
        lemma_put(w.injector.pending, id, fresh);
        assert forall|k: int|
            0 <= k < sessions.len() && (#[trigger] sessions[k]).state == SupervisorState::Working
                && sessions[k].in_flight is None && free_for_winddown(
                start.injector,
                sessions[k].session_id,
            ) implies ({
            let id = sessions[k].session_id;
            &&& winds_down(end.injector, id)
            &&& end.wound.contains(id)
            &&& start.injector.idle.contains(id) ==> typed_into(end.typed, id)
        }) by {
            if k < init.len() {
                assert(init[k] == sessions[k]);
                assert(init[k].session_id != id);
            }
        }
        assert forall|other: u32|
            (forall|k: int|
                0 <= k < sessions.len() && (#[trigger] sessions[k]).session_id == other ==> !(
                sessions[k].state == SupervisorState::Working && sessions[k].in_flight is None
                    && free_for_winddown(start.injector, other))) implies #[trigger] lookup(
            end.injector.pending,
            other,
        ) == lookup(start.injector.pending, other) && end.wound.contains(other)
            == start.wound.contains(other) by {
            assert forall|k: int|
                0 <= k < init.len() && (#[trigger] init[k]).session_id == other implies !(
            init[k].state == SupervisorState::Working && init[k].in_flight is None
                && free_for_winddown(start.injector, other)) by {
                assert(init[k] == sessions[k]);
            }
            if other == id {
                assert(sessions[sessions.len() - 1].session_id == other);
            }
            assert(lookup(w.injector.pending, other) == lookup(start.injector.pending, other));
        }
        assert forall|other: u32|
            (forall|k: int| 0 <= k < sessions.len() ==> (#[trigger] sessions[k]).session_id != other)
            implies #[trigger] end.injector.idle.contains(other)
            == start.injector.idle.contains(other) by {
            assert(sessions[sessions.len() - 1].session_id != other);
            assert forall|k: int| 0 <= k < init.len() implies (#[trigger] init[k]).session_id
                != other by {
                assert(init[k] == sessions[k]);
            }
            assert(w.injector.idle.contains(other) == start.injector.idle.contains(other));
        }
    }
}

/// What is pending for a session that was wound down, before and after the recovery.
pub open spec fn is_cleared(before: Option<PendingModel>, after: Option<PendingModel>) -> bool {
    match before {
        Some(q) if q.kind != PendingKind::SoftWinddown => after == Some(q),
        Some(q) if q.attempts == 0 => after is None,
        _ => after matches Some(p) && p.kind == PendingKind::WinddownAllClear,
    }
}

proof fn lemma_cleared(m: InjectorModel, s: SessionSnapshot, now: u128)
    requires
        distinct_keys(m.pending),
    ensures
        ({
            let after = m.after_allclear(s, Some(s.state), now);
            &&& distinct_keys(after.pending)
            &&& is_cleared(lookup(m.pending, s.session_id), lookup(after.pending, s.session_id))
            &&& forall|k: u32|
                k != s.session_id ==> #[trigger] lookup(after.pending, k) == lookup(m.pending, k)
        }),
{
    lemma_armed(m, s.session_id, m.fresh_allclear(s, now), Some(s.state), now);
    lemma_without(m.pending, s.session_id);
}

/// The session is listed, works and was wound down.
pub open spec fn awaits_allclear(
    wound: Set<u32>,
    sessions: Seq<SessionSnapshot>,
    k: int,
    id: u32,
) -> bool {
    0 <= k < sessions.len() && sessions[k].session_id == id && sessions[k].state
        == SupervisorState::Working && wound.contains(id)
}

/// At the recovery every listed session that was wound down, still works and has nothing
/// pending, or a wind-down that was typed, has a pending all-clear, wherever it stands in
/// the listing. A wind-down that was never typed is taken back. Every other session is left
/// as it was.
pub proof fn law_a_recovery_clears_every_session_that_was_wound_down(
    start: Winddowns,
    sessions: Seq<SessionSnapshot>,
    now: u128,
)
    requires
        distinct_keys(start.injector.pending),
        listed_once(sessions),
    ensures
        ({
            let end = allclears(start, sessions, now);
            &&& distinct_keys(end.injector.pending)
            &&& end.wound == start.wound
            &&& forall|k: int, id: u32| #[trigger]
                awaits_allclear(start.wound, sessions, k, id) ==> is_cleared(
                    lookup(start.injector.pending, id),
                    lookup(end.injector.pending, id),
                )
            &&& forall|id: u32|
                (forall|k: int| !#[trigger] awaits_allclear(start.wound, sessions, k, id))
                    ==> #[trigger] lookup(end.injector.pending, id) == lookup(
                    start.injector.pending,
                    id,
                )
        }),
    decreases sessions.len(),
{
    if sessions.len() > 0 {
        let init = sessions.drop_last();
        let s = sessions.last();
        let last = sessions.len() - 1;
        let wound = start.wound;
        assert(sessions[last] == s);
        assert(listed_once(init));
        law_a_recovery_clears_every_session_that_was_wound_down(start, init, now);
        let w = allclears(start, init, now);
        let end = allclears(start, sessions, now);
        lemma_cleared(w.injector, s, now);
        assert forall|k: int| !#[trigger] awaits_allclear(wound, init, k, s.session_id) by {
            if awaits_allclear(wound, init, k, s.session_id) {
                assert(sessions[k].session_id != sessions[last].session_id);
            }
        }
        assert(lookup(w.injector.pending, s.session_id) == lookup(
            start.injector.pending,
            s.session_id,
        ));
        assert forall|k: int, id: u32| #[trigger]
            awaits_allclear(wound, sessions, k, id) implies is_cleared(
            lookup(start.injector.pending, id),
            lookup(end.injector.pending, id),
        ) by {
            if k < last {
                assert(awaits_allclear(wound, init, k, id));
                assert(lookup(w.injector.pending, id) == lookup(end.injector.pending, id)) by {
                    assert(sessions[k].session_id != sessions[last].session_id);
                }
            }
        }
        assert forall|id: u32|
            (forall|k: int| !#[trigger] awaits_allclear(wound, sessions, k, id)) implies #[trigger] lookup(
            end.injector.pending,
            id,
        ) == lookup(start.injector.pending, id) by {
            assert forall|k: int| !#[trigger] awaits_allclear(wound, init, k, id) by {
                assert(!awaits_allclear(wound, sessions, k, id));
            }
            assert(!awaits_allclear(wound, sessions, last, id));
            assert(lookup(w.injector.pending, id) == lookup(start.injector.pending, id));
        }
    }
}

/// A session that is idle at the recovery and gets an all-clear has it typed at once. An
/// idle flag is taken from nobody else, and what was typed before stays typed.
pub proof fn law_an_idle_session_is_cleared_at_once(
    start: Winddowns,
    sessions: Seq<SessionSnapshot>,
    now: u128,
)
    requires
        distinct_keys(start.injector.pending),
        listed_once(sessions),
    ensures
        ({
            let end = allclears(start, sessions, now);
            &&& forall|k: int, id: u32| #[trigger]
                awaits_allclear(start.wound, sessions, k, id) && start.injector.idle.contains(id)
                    && (lookup(start.injector.pending, id) matches Some(p) ==> p.kind
                    == PendingKind::SoftWinddown && p.attempts > 0) ==> typed_into(end.typed, id)
            &&& forall|id: u32|
                (forall|k: int| !#[trigger] awaits_allclear(start.wound, sessions, k, id))
                    ==> #[trigger] end.injector.idle.contains(id)
                    == start.injector.idle.contains(id)
            &&& forall|id: u32| typed_into(start.typed, id) ==> #[trigger] typed_into(end.typed, id)
        }),
    decreases sessions.len(),
{
    if sessions.len() > 0 {
        let init = sessions.drop_last();
        let s = sessions.last();
        let last = sessions.len() - 1;
        let wound = start.wound;
        assert(sessions[last] == s);
        assert(listed_once(init));
        law_an_idle_session_is_cleared_at_once(start, init, now);
        law_a_recovery_clears_every_session_that_was_wound_down(start, init, now);
        let w = allclears(start, init, now);
        let end = allclears(start, sessions, now);
        let fresh = w.injector.fresh_allclear(s, now);
        lemma_armed(w.injector, s.session_id, fresh, Some(s.state), now);
        lemma_put(w.injector.pending, s.session_id, fresh);
        lemma_typed_more(
            w.typed,
            s.session_id,
            w.injector.typed_on_allclear(s, Some(s.state), now),
        );
        assert forall|k: int| !#[trigger] awaits_allclear(wound, init, k, s.session_id) by {
            if awaits_allclear(wound, init, k, s.session_id) {
                assert(sessions[k].session_id != sessions[last].session_id);
            }
        }
        assert(lookup(w.injector.pending, s.session_id) == lookup(
            start.injector.pending,
            s.session_id,
        ));
        assert(w.injector.idle.contains(s.session_id) == start.injector.idle.contains(
            s.session_id,
        ));
        assert forall|k: int, id: u32| #[trigger]
            awaits_allclear(wound, sessions, k, id) && start.injector.idle.contains(id) && (lookup(
                start.injector.pending,
                id,
            ) matches Some(p) ==> p.kind == PendingKind::SoftWinddown && p.attempts > 0)
            implies typed_into(end.typed, id) by {
            if k < last {
                assert(awaits_allclear(wound, init, k, id));
                assert(typed_into(w.typed, id));
            }
        }
        assert forall|id: u32|
            (forall|k: int| !#[trigger] awaits_allclear(wound, sessions, k, id))
            implies #[trigger] end.injector.idle.contains(id) == start.injector.idle.contains(
            id,
        ) by {
            assert forall|k: int| !#[trigger] awaits_allclear(wound, init, k, id) by {
                assert(!awaits_allclear(wound, sessions, k, id));
            }
            assert(!awaits_allclear(wound, sessions, last, id));
            assert(w.injector.idle.contains(id) == start.injector.idle.contains(id));
        }
    }
}

} // verus!
