//! The progress tracker: a circuit breaker for runs that burn without committing,
//! and the detection of generations that hand off without a commit.
//!
//! Progress is the repository's HEAD moving. An unknown HEAD is no evidence: it
//! never counts and never trips.

use vstd::prelude::*;
use crate::audit::{AuditDetails, AuditEventKind, AuditRow};
use crate::handoff_file::opt_view;
use crate::progress_laws::{
    is_foremost, law_a_run_is_tracked_while_a_session_is, law_a_trip_parks_a_session_of_its_own_run,
    still_tracked, works_on,
};
use crate::prompts::pin_view;
use crate::run_map::RunMap;
use crate::runs::{Run, RunKey};
use crate::session::{SessionSnapshot, SupervisorState};
use crate::session_map::SessionMap;
use crate::table::{distinct_keys, lemma_lookup, lemma_put, lemma_without, lookup, put, without};
use crate::text::{owned, same};

verus! {

// ---------------------------------------------------------------------------
// Decisions on plain values
// ---------------------------------------------------------------------------

/// An audit row as the tracker reads it: its context, and the `kind` and `phase` of
/// its details where they are texts.
#[derive(Debug)]
pub struct ObservedEvent {
    /// What kind of thing it records.
    pub event: AuditEventKind,
    /// The run.
    pub epic: String,
    /// The generation.
    pub generation: u32,
    /// The session.
    pub session_id: u32,
    /// The `kind` of its details.
    pub kind: Option<String>,
    /// The `phase` of its details.
    pub phase: Option<String>,
}

impl ObservedEvent {
    /// The event is not evidence of burn: a park, an injection, or an alert that
    /// the tracker raised itself.
    pub open spec fn own(&self) -> bool {
        own_event(self.event, opt_view(self.kind))
    }

    /// The event is a handoff being requested.
    pub open spec fn requests_handoff(&self) -> bool {
        self.event is Handoff && opt_view(self.phase) == Some("requested"@)
    }
}

/// An event of this kind is not evidence of burn.
pub open spec fn own_event(event: AuditEventKind, kind: Option<Seq<char>>) -> bool {
    match event {
        AuditEventKind::Park => true,
        AuditEventKind::Inject => true,
        AuditEventKind::Alert => kind == Some("circuit_breaker"@) || kind == Some(
            "handoff_churn"@,
        ),
        _ => false,
    }
}

/// Whether the optional text is `expected`.
fn text_is(text: &Option<String>, expected: &str) -> (r: bool)
    ensures
        r == (opt_view(*text) == Some(expected@)),
{
    match text {
        Some(t) => same(t.as_str(), expected),
        None => false,
    }
}

/// Whether the event is not evidence of burn. A trip writes park rows and an alert;
/// counting them would trip the next one at once.
pub fn is_self_event(event: &ObservedEvent) -> (r: bool)
    ensures
        r == event.own(),
{
    match event.event {
        AuditEventKind::Park => true,
        AuditEventKind::Inject => true,
        AuditEventKind::Alert => text_is(&event.kind, "circuit_breaker") || text_is(
            &event.kind,
            "handoff_churn",
        ),
        _ => false,
    }
}

/// Whether the event is a handoff being requested.
pub fn is_handoff_trigger(event: &ObservedEvent) -> (r: bool)
    ensures
        r == event.requests_handoff(),
{
    event.event == AuditEventKind::Handoff && text_is(&event.phase, "requested")
}

/// The HEAD that the breaker counts against, the count and the latch.
pub ghost struct Counter {
    pub observed: Option<Seq<char>>,
    pub count: u32,
    pub latched: bool,
}

impl Counter {
    /// After one more event at this HEAD: an unknown one changes nothing, the same
    /// one counts, another one is progress.
    pub open spec fn next(self, head: Option<Seq<char>>) -> Counter {
        match head {
            None => self,
            Some(h) => if self.observed == Some(h) {
                Counter {
                    count: if self.count < u32::MAX {
                        (self.count + 1) as u32
                    } else {
                        self.count
                    },
                    ..self
                }
            } else {
                Counter { observed: Some(h), count: 0, latched: false }
            },
        }
    }

    /// A trip is due.
    pub open spec fn due(self, breaker_events: u32) -> bool {
        self.latched || self.count >= breaker_events
    }
}

/// An owned copy of an optional text.
fn opt_owned(text: Option<&str>) -> (r: Option<String>)
    ensures
        opt_view(r) == pin_view(text),
{
    match text {
        Some(t) => Some(owned(t)),
        None => None,
    }
}

/// The optional text as a slice.
fn opt_str<'a>(text: &'a Option<String>) -> (r: Option<&'a str>)
    ensures
        pin_view(r) == opt_view(*text),
{
    match text {
        Some(t) => Some(t.as_str()),
        None => None,
    }
}

/// Whether both texts are known and equal.
fn both_known_and_equal(a: Option<&str>, b: Option<&str>) -> (r: bool)
    ensures
        r == (pin_view(a) is Some && pin_view(a) == pin_view(b)),
{
    match a {
        Some(x) => match b {
            Some(y) => same(x, y),
            None => false,
        },
        None => false,
    }
}

/// One HEAD applied to the breaker's counter.
pub fn next_breaker(
    observed: Option<&str>,
    count: u32,
    latched: bool,
    head: Option<&str>,
) -> (next: (Option<String>, u32, bool))
    ensures
        (Counter { observed: opt_view(next.0), count: next.1, latched: next.2 }) == (Counter {
            observed: pin_view(observed),
            count,
            latched,
        }).next(pin_view(head)),
{
    match head {
        None => (opt_owned(observed), count, latched),
        Some(h) => {
            if both_known_and_equal(observed, head) {
                let more: u32 = if count < u32::MAX {
                    count + 1
                } else {
                    count
                };
                (opt_owned(observed), more, latched)
            } else {
                (Some(owned(h)), 0, false)
            }
        },
    }
}

/// Whether a generation hands off at the HEAD it started from. Unknown on either
/// side is no.
pub fn is_churn(baseline: Option<&str>, head: Option<&str>) -> (r: bool)
    ensures
        r == (pin_view(baseline) is Some && pin_view(baseline) == pin_view(head)),
{
    both_known_and_equal(baseline, head)
}

/// The session that a trip parks, with its generation: of the working ones the
/// last with the highest generation.
pub open spec fn candidate(live: Seq<(u32, u32, SupervisorState)>) -> Option<(u32, u32)>
    decreases live.len(),
{
    if live.len() == 0 {
        None
    } else {
        let best = candidate(live.drop_last());
        let last = live.last();
        if last.2 is Working && (best matches Some(b) ==> b.1 <= last.1) {
            Some((last.0, last.1))
        } else {
            best
        }
    }
}

/// The candidate works and no working session is of a higher generation; there is
/// none only where no session works.
pub proof fn lemma_candidate(live: Seq<(u32, u32, SupervisorState)>)
    ensures
        candidate(live) matches Some(c) ==> exists|i: int|
            0 <= i < live.len() && (#[trigger] live[i]).0 == c.0 && live[i].1 == c.1
                && live[i].2 is Working,
        candidate(live) matches Some(c) ==> forall|i: int|
            0 <= i < live.len() && (#[trigger] live[i]).2 is Working ==> live[i].1 <= c.1,
        candidate(live) is None ==> forall|i: int|
            0 <= i < live.len() ==> !((#[trigger] live[i]).2 is Working),
    decreases live.len(),
{
    if live.len() > 0 {
        let init = live.drop_last();
        lemma_candidate(init);
        assert(live.last() == live[live.len() - 1]);
        if candidate(init) is Some {
            let c = candidate(init)->0;
            let i = choose|i: int|
                0 <= i < init.len() && (#[trigger] init[i]).0 == c.0 && init[i].1 == c.1
                    && init[i].2 is Working;
            assert(live[i] == init[i]);
        }
        assert forall|i: int| 0 <= i < init.len() implies #[trigger] live[i] == init[i] by {}
    }
}

/// Which of the live sessions a trip parks: the working one of the highest
/// generation. Without one the trip waits: a session in a handoff is not parked,
/// one in a park already is, and between generations there is none.
pub fn park_candidate(live: &[(u32, u32, SupervisorState)]) -> (id: Option<u32>)
    ensures
        id == (match candidate(live@) {
            Some(c) => Some(c.0),
            None => None,
        }),
{
    let mut best: Option<(u32, u32)> = None;
    let mut i: usize = 0;
    proof {
        assert(live@.take(0) =~= Seq::empty());
    }
    while i < live.len()
        invariant
            i <= live.len(),
            best == candidate(live@.take(i as int)),
        decreases live.len() - i,
    {
        proof {
            assert(live@.take(i + 1).drop_last() =~= live@.take(i as int));
        }
        let (id, generation, state) = live[i];
        if state == SupervisorState::Working {
            let better: bool = match best {
                Some(b) => b.1 <= generation,
                None => true,
            };
            if better {
                best = Some((id, generation));
            }
        }
        i = i + 1;
    }
    proof {
        assert(live@.take(i as int) =~= live@);
    }
    match best {
        Some(b) => Some(b.0),
        None => None,
    }
}

// ---------------------------------------------------------------------------
// The tracker
// ---------------------------------------------------------------------------

/// What a change of a session means for the tracker.
#[derive(Debug, Clone, Copy, PartialEq, Eq, Structural)]
pub enum StateChange {
    /// A session was registered: its working directory and HEAD are to be read.
    Registered,
    /// A session reached a terminal state: its baseline goes.
    Ended,
    /// Nothing.
    Nothing,
}

/// What a change of a session means for the tracker.
pub fn on_state_change(session: &SessionSnapshot) -> (change: StateChange)
    ensures
        change == (if session.previous_state is None {
            StateChange::Registered
        } else if session.state.terminal() {
            StateChange::Ended
        } else {
            StateChange::Nothing
        }),
{
    if session.previous_state.is_none() {
        StateChange::Registered
    } else if session.state.is_terminal() {
        StateChange::Ended
    } else {
        StateChange::Nothing
    }
}

/// Where a generation started.
pub ghost struct BaselineModel {
    pub run: Run,
    pub generation: u32,
    pub baseline_head: Option<Seq<char>>,
}

/// The breaker of a run.
pub ghost struct BreakerModel {
    pub working_dir: Seq<char>,
    pub counter: Counter,
}

/// The state of the tracker.
pub ghost struct ProgressModel {
    pub baselines: Seq<(u32, BaselineModel)>,
    pub epics: Seq<(Run, BreakerModel)>,
}

/// Where a generation started. Without a known HEAD it never alarms.
#[derive(Debug)]
pub struct SessionBaseline {
    key: RunKey,
    generation: u32,
    baseline_head: Option<String>,
}

impl View for SessionBaseline {
    type V = BaselineModel;

    closed spec fn view(&self) -> BaselineModel {
        BaselineModel {
            run: self.key@,
            generation: self.generation,
            baseline_head: opt_view(self.baseline_head),
        }
    }
}

/// The breaker of a run: the HEAD it counts against, how many events in a row, and
/// whether a trip is due that found nobody to park.
#[derive(Debug)]
pub struct EpicBreaker {
    working_dir: String,
    observed_head: Option<String>,
    count: u32,
    latched: bool,
}

impl View for EpicBreaker {
    type V = BreakerModel;

    closed spec fn view(&self) -> BreakerModel {
        BreakerModel {
            working_dir: self.working_dir@,
            counter: Counter {
                observed: opt_view(self.observed_head),
                count: self.count,
                latched: self.latched,
            },
        }
    }
}

impl ProgressModel {
    /// No session has two baselines, no run two breakers.
    pub open spec fn wf(self) -> bool {
        distinct_keys(self.baselines) && distinct_keys(self.epics)
    }

    /// The breaker of a run after a generation registered in `dir`. The first
    /// generation is a launch and starts anew; a later one keeps the count.
    pub open spec fn registered_breaker(
        self,
        run: Run,
        generation: u32,
        dir: Seq<char>,
    ) -> BreakerModel {
        match lookup(self.epics, run) {
            Some(b) if generation != 1 => BreakerModel { working_dir: dir, ..b },
            _ => BreakerModel {
                working_dir: dir,
                counter: Counter { observed: None, count: 0, latched: false },
            },
        }
    }

    /// The HEAD that an event's generation started from, where the event asks for
    /// the comparison.
    pub open spec fn churn_baseline(self, event: ObservedEvent) -> Option<Seq<char>> {
        match lookup(self.baselines, event.session_id) {
            Some(b) if event.requests_handoff() && b.generation == event.generation
                => b.baseline_head,
            _ => None,
        }
    }

    /// A run has a baseline.
    pub open spec fn has_baseline(self, run: Run) -> bool {
        exists|i: int|
            0 <= i < self.baselines.len() && (#[trigger] self.baselines[i]).1.run == run
    }

    /// With this counter in the breaker of a run.
    pub open spec fn with_counter(self, run: Run, counter: Counter) -> ProgressModel {
        ProgressModel {
            epics: put(
                self.epics,
                run,
                BreakerModel { counter, ..lookup(self.epics, run)->0 },
            ),
            ..self
        }
    }
}

/// The live sessions of a run, in order.
pub open spec fn live_of(sessions: Seq<SessionSnapshot>, run: Run) -> Seq<
    (u32, u32, SupervisorState),
>
    decreases sessions.len(),
{
    if sessions.len() == 0 {
        Seq::empty()
    } else {
        let init = live_of(sessions.drop_last(), run);
        let last = sessions.last();
        if last.run() == run && !last.state.terminal() {
            init.push((last.session_id, last.generation, last.state))
        } else {
            init
        }
    }
}

/// The row says that a generation hands off at the HEAD it started from.
pub open spec fn is_churn_row(
    row: AuditRow,
    project: Seq<char>,
    event: ObservedEvent,
    baseline: Seq<char>,
) -> bool {
    &&& row.is_about(
        project,
        event.epic@,
        AuditEventKind::Alert,
        event.generation,
        event.session_id,
    )
    &&& row.details matches AuditDetails::HandoffChurn { baseline_head } && baseline_head@
        == baseline
}

/// The row says that the breaker of a run tripped.
pub open spec fn is_breaker_row(
    row: AuditRow,
    run: Run,
    generation: u32,
    session_id: u32,
    counter: Counter,
) -> bool {
    &&& row.is_about(run.0, run.1, AuditEventKind::Alert, generation, session_id)
    &&& row.details matches AuditDetails::CircuitBreaker { epic, events, head } && epic@ == run.1
        && events == counter.count && opt_view(head) == counter.observed
}

/// The progress tracker.
#[derive(Debug)]
pub struct SamuraiProgress {
    baselines: SessionMap<SessionBaseline>,
    epics: RunMap<EpicBreaker>,
}

impl View for SamuraiProgress {
    type V = ProgressModel;

    closed spec fn view(&self) -> ProgressModel {
        ProgressModel { baselines: self.baselines@, epics: self.epics@ }
    }
}

impl SamuraiProgress {
    /// The tracker is valid.
    pub open spec fn wf(&self) -> bool {
        self@.wf() && self.backed()
    }

    /// The table behind the tracker holds what it lists.
    pub closed spec fn backed(&self) -> bool {
        self.baselines.backed()
    }

    /// A tracker of nothing.
    pub fn new() -> (tracker: Self)
        ensures
            tracker.wf(),
            tracker@.baselines.len() == 0,
            tracker@.epics.len() == 0,
    {
        SamuraiProgress { baselines: SessionMap::new(), epics: RunMap::new() }
    }

    /// The generation and the baseline of a session.
    pub fn baseline_view(&self, session_id: u32) -> (view: Option<(u32, Option<String>)>)
        requires
            self.wf(),
        ensures
            match view {
                Some((generation, head)) => lookup(self@.baselines, session_id) matches Some(b)
                    && b.generation == generation && b.baseline_head == opt_view(head),
                None => lookup(self@.baselines, session_id) is None,
            },
    {
        match self.baselines.get(session_id) {
            Some(b) => Some((b.generation, opt_owned(opt_str(&b.baseline_head)))),
            None => None,
        }
    }

    /// The observed HEAD, the count and the latch of a run.
    pub fn breaker_view(&self, project: &str, epic: &str) -> (view: Option<
        (Option<String>, u32, bool),
    >)
        ensures
            match view {
                Some((observed, count, latched)) => lookup(
                    self@.epics,
                    (project@, epic@),
                ) matches Some(b) && b.counter == (Counter {
                    observed: opt_view(observed),
                    count,
                    latched,
                }),
                None => lookup(self@.epics, (project@, epic@)) is None,
            },
    {
        match self.epics.get(project, epic) {
            Some(b) => Some((opt_owned(opt_str(&b.observed_head)), b.count, b.latched)),
            None => None,
        }
    }

    /// A session registered. `place` is its working directory, where it could be
    /// resolved, and the HEAD there, where it could be read. Follow with
    /// [`Self::evaluate_trip`].
    pub fn handle_register(
        &mut self,
        session_id: u32,
        project: &str,
        epic: &str,
        generation: u32,
        place: Option<(String, Option<String>)>,
    )
        requires
            old(self).wf(),
        ensures
            ({
                let run = (project@, epic@);
                let head = match place {
                    Some((_, h)) => opt_view(h),
                    None => None,
                };
                &&& final(self)@.baselines == put(
                    old(self)@.baselines,
                    session_id,
                    BaselineModel { run, generation, baseline_head: head },
                )
                &&& final(self)@.epics == (match place {
                    Some((dir, _)) => put(
                        old(self)@.epics,
                        run,
                        old(self)@.registered_breaker(run, generation, dir@),
                    ),
                    None => old(self)@.epics,
                })
            }),
            lookup(final(self)@.baselines, session_id) matches Some(b) && b.run == (
                project@,
                epic@,
            ) && b.generation == generation && (place is None ==> b.baseline_head is None) && (
            place matches Some(p) ==> b.baseline_head == opt_view(p.1)),
            forall|id: u32|
                id != session_id ==> #[trigger] lookup(final(self)@.baselines, id) == lookup(
                    old(self)@.baselines,
                    id,
                ),
            place matches Some(p) ==> (lookup(
                final(self)@.epics,
                (project@, epic@),
            ) matches Some(b) && b.working_dir == p.0@),
            forall|run: Run|
                run != (project@, epic@) ==> #[trigger] lookup(final(self)@.epics, run) == lookup(
                    old(self)@.epics,
                    run,
                ),
            final(self).wf(),
    {
        proof {
            let run = (project@, epic@);
            let head = if place is Some {
                let there = place->0;
                opt_view(there.1)
            } else {
                None
            };
            lemma_put(
                self@.baselines,
                session_id,
                BaselineModel { run, generation, baseline_head: head },
            );
            if place is Some {
                let there = place->0;
                let dir = there.0@;
                lemma_put(self@.epics, run, self@.registered_breaker(run, generation, dir));
            }
        }
        let (dir, head) = match place {
            Some((d, h)) => (Some(d), h),
            None => (None, None),
        };
        self.baselines.insert(
            session_id,
            SessionBaseline { key: RunKey::new(project, epic), generation, baseline_head: head },
        );
        if let Some(working_dir) = dir {
            let kept = match self.epics.get(project, epic) {
                Some(b) => if generation != 1 {
                    Some((opt_owned(opt_str(&b.observed_head)), b.count, b.latched))
                } else {
                    None
                },
                None => None,
            };
            let (observed_head, count, latched) = match kept {
                Some(k) => k,
                None => (None, 0, false),
            };
            self.epics.insert(
                RunKey::new(project, epic),
                EpicBreaker { working_dir, observed_head, count, latched },
            );
        }
    }

    /// A session reached a terminal state. Its baseline goes; the breaker of its run
    /// stays, so that its count carries over to the successor.
    pub fn handle_terminal(&mut self, session_id: u32)
        requires
            old(self).wf(),
        ensures
            final(self)@ == (ProgressModel {
                baselines: without(old(self)@.baselines, session_id),
                ..old(self)@
            }),
            lookup(final(self)@.baselines, session_id) is None,
            forall|id: u32|
                id != session_id ==> #[trigger] lookup(final(self)@.baselines, id) == lookup(
                    old(self)@.baselines,
                    id,
                ),
            final(self).wf(),
    {
        proof {
            lemma_without(self@.baselines, session_id);
        }
        self.baselines.remove(session_id);
    }

    /// A session was torn down from outside. Its baseline goes, and with the last
    /// baseline of a run its breaker.
    pub fn handle_removed(&mut self, session_id: u32)
        requires
            old(self).wf(),
        ensures
            match lookup(old(self)@.baselines, session_id) {
                None => final(self)@ == old(self)@,
                Some(b) => {
                    let left = ProgressModel {
                        baselines: without(old(self)@.baselines, session_id),
                        ..old(self)@
                    };
                    final(self)@ == (if left.has_baseline(b.run) {
                        left
                    } else {
                        ProgressModel { epics: without(left.epics, b.run), ..left }
                    })
                },
            },
            lookup(final(self)@.baselines, session_id) is None,
            forall|id: u32|
                id != session_id ==> #[trigger] lookup(final(self)@.baselines, id) == lookup(
                    old(self)@.baselines,
                    id,
                ),
            forall|run: Run| #[trigger]
                lookup(final(self)@.epics, run) == (if (lookup(
                    old(self)@.baselines,
                    session_id,
                ) matches Some(b) && b.run == run) && !still_tracked(final(self)@, run) {
                    None
                } else {
                    lookup(old(self)@.epics, run)
                }),
            final(self).wf(),
    {
        proof {
            lemma_without(self@.baselines, session_id);
            if lookup(self@.baselines, session_id) is Some {
                let run = lookup(self@.baselines, session_id)->0.run;
                let left = ProgressModel {
                    baselines: without(self@.baselines, session_id),
                    ..self@
                };
                lemma_without(self@.epics, run);
                law_a_run_is_tracked_while_a_session_is(left, run);
            }
            lemma_lookup(self@.baselines, session_id);
            crate::table::lemma_without_absent_if(self@.baselines, session_id);
        }
        let removed = self.baselines.remove(session_id);
        if let Some(baseline) = removed {
            let project = baseline.key.project.as_str();
            let epic = baseline.key.epic.as_str();
            if !self.any_baseline(project, epic) {
                self.epics.remove(project, epic);
            }
        }
    }

    /// Whether a run has a baseline.
    fn any_baseline(&self, project: &str, epic: &str) -> (r: bool)
        requires
            self.wf(),
        ensures
            r == self@.has_baseline((project@, epic@)),
    {
        let mut i: usize = 0;
        while i < self.baselines.len()
            invariant
                i <= self@.baselines.len(),
                self.wf(),
                self@.baselines == self.baselines@,
                forall|j: int|
                    0 <= j < i ==> (#[trigger] self@.baselines[j]).1.run != (project@, epic@),
            decreases self@.baselines.len() - i,
        {
            if self.baselines.value_at(i).key.is(project, epic) {
                proof {
                    assert(self@.baselines[i as int].1.run == (project@, epic@));
                }
                return true;
            }
            i = i + 1;
        }
        false
    }

    /// Where HEAD is to be read for an audit row. Nowhere for a row that does not
    /// count, or of a run that is not tracked.
    pub fn audit_dir(&self, project: &str, event: &ObservedEvent) -> (dir: Option<String>)
        ensures
            opt_view(dir) == (if event.own() {
                None
            } else {
                match lookup(self@.epics, (project@, event.epic@)) {
                    Some(b) => Some(b.working_dir),
                    None => None,
                }
            }),
    {
        if is_self_event(event) {
            return None;
        }
        match self.epics.get(project, event.epic.as_str()) {
            Some(b) => Some(b.working_dir.clone()),
            None => None,
        }
    }

    /// Counts one audit row against the HEAD that was read for it. Gives the alert
    /// that the generation hands off without a commit, and says whether a trip is
    /// due; if so, follow with [`Self::evaluate_trip`].
    pub fn handle_audit(
        &mut self,
        project: &str,
        event: &ObservedEvent,
        head: Option<&str>,
        breaker_events: u32,
    ) -> (outcome: (Option<AuditRow>, bool))
        requires
            old(self).wf(),
        ensures
            ({
                let run = (project@, event.epic@);
                match lookup(old(self)@.epics, run) {
                    Some(b) if !event.own() => {
                        let next = b.counter.next(pin_view(head));
                        let baseline = old(self)@.churn_baseline(*event);
                        &&& final(self)@ == old(self)@.with_counter(run, next)
                        &&& outcome.1 == next.due(breaker_events)
                        &&& match outcome.0 {
                            Some(row) => baseline is Some && baseline == pin_view(head)
                                && is_churn_row(row, project@, *event, baseline->0),
                            None => !(baseline is Some && baseline == pin_view(head)),
                        }
                    },
                    _ => final(self)@ == old(self)@ && outcome == (None::<AuditRow>, false),
                }
            }),
            final(self)@.baselines == old(self)@.baselines,
            forall|run: Run|
                run != (project@, event.epic@) ==> #[trigger] lookup(final(self)@.epics, run)
                    == lookup(old(self)@.epics, run),
            final(self).wf(),
    {
        proof {
            let run = (project@, event.epic@);
            if lookup(self@.epics, run) is Some {
                let b = lookup(self@.epics, run)->0;
                lemma_put(
                    self@.epics,
                    run,
                    BreakerModel { counter: b.counter.next(pin_view(head)), ..b },
                );
            }
        }
        if is_self_event(event) || !self.epics.contains(project, event.epic.as_str()) {
            return (None, false);
        }
        let mut churn: Option<AuditRow> = None;
        if is_handoff_trigger(event) {
            if let Some(b) = self.baselines.get(event.session_id) {
                if b.generation == event.generation && is_churn(opt_str(&b.baseline_head), head) {
                    if let Some(text) = &b.baseline_head {
                        churn =
                        Some(
                            AuditRow {
                                project: owned(project),
                                epic: event.epic.clone(),
                                event: AuditEventKind::Alert,
                                generation: event.generation,
                                session_id: event.session_id,
                                details: AuditDetails::HandoffChurn { baseline_head: text.clone() },
                            },
                        );
                    }
                }
            }
        }
        match self.epics.get(project, event.epic.as_str()) {
            Some(b) => {
                let (observed_head, count, latched) = next_breaker(
                    opt_str(&b.observed_head),
                    b.count,
                    b.latched,
                    head,
                );
                let working_dir = b.working_dir.clone();
                let due: bool = latched || count >= breaker_events;
                self.epics.insert(
                    RunKey::new(project, event.epic.as_str()),
                    EpicBreaker { working_dir, observed_head, count, latched },
                );
                (churn, due)
            },
            None => (None, false),
        }
    }

    /// Looks at the breaker of a run. Where a trip is due it gives the session to
    /// park, after which [`Self::park_finished`] is called; where nobody can be
    /// parked the trip is latched.
    pub fn evaluate_trip(
        &mut self,
        project: &str,
        epic: &str,
        breaker_events: u32,
        sessions: &Vec<SessionSnapshot>,
    ) -> (park: Option<u32>)
        requires
            old(self).wf(),
        ensures
            ({
                let run = (project@, epic@);
                let chosen = candidate(live_of(sessions@, run));
                match lookup(old(self)@.epics, run) {
                    Some(b) if b.counter.due(breaker_events) => match chosen {
                        Some(c) => park == Some(c.0) && final(self)@ == old(self)@,
                        None => park is None && final(self)@ == old(self)@.with_counter(
                            run,
                            Counter { latched: true, ..b.counter },
                        ),
                    },
                    _ => park is None && final(self)@ == old(self)@,
                }
            }),
            park matches Some(id) ==> exists|k: int| #[trigger]
                is_foremost(sessions@, k, project@, epic@) && sessions@[k].session_id == id,
            lookup(old(self)@.epics, (project@, epic@)) matches Some(b) && (b.counter.latched
                || b.counter.count >= breaker_events) && (exists|k: int| #[trigger]
                works_on(sessions@, k, project@, epic@)) ==> park is Some,
            final(self).wf(),
    {
        proof {
            law_a_trip_parks_a_session_of_its_own_run(sessions@, project@, epic@);
        }
        let due: bool = match self.epics.get(project, epic) {
            Some(b) => b.latched || b.count >= breaker_events,
            None => false,
        };
        if !due {
            return None;
        }
        let live = live_sessions(sessions, project, epic);
        match park_candidate(live.as_slice()) {
            Some(id) => Some(id),
            None => {
                self.set_latch(project, epic, true);
                None
            },
        }
    }

    /// The park that a trip asked for ended: with the session's generation where it
    /// was parked, which raises the alert and starts the count anew; with nothing
    /// where it was refused, which latches the trip.
    pub fn park_finished(
        &mut self,
        project: &str,
        epic: &str,
        session_id: u32,
        parked: Option<u32>,
    ) -> (row: Option<AuditRow>)
        requires
            old(self).wf(),
        ensures
            ({
                let run = (project@, epic@);
                match lookup(old(self)@.epics, run) {
                    None => row is None && final(self)@ == old(self)@,
                    Some(b) => match parked {
                        Some(generation) => {
                            &&& final(self)@ == old(self)@.with_counter(
                                run,
                                Counter { count: 0, latched: false, ..b.counter },
                            )
                            &&& row matches Some(r) && is_breaker_row(
                                r,
                                run,
                                generation,
                                session_id,
                                b.counter,
                            )
                        },
                        None => row is None && final(self)@ == old(self)@.with_counter(
                            run,
                            Counter { latched: true, ..b.counter },
                        ),
                    },
                }
            }),
            row is Some <==> parked is Some && lookup(old(self)@.epics, (project@, epic@)) is Some,
            lookup(final(self)@.epics, (project@, epic@)) matches Some(b) ==> b.counter.latched
                == parked is None && (parked is Some ==> b.counter.count == 0),
            final(self)@.baselines == old(self)@.baselines,
            forall|run: Run|
                run != (project@, epic@) ==> #[trigger] lookup(final(self)@.epics, run) == lookup(
                    old(self)@.epics,
                    run,
                ),
            final(self).wf(),
    {
        proof {
            let run = (project@, epic@);
            if lookup(self@.epics, run) is Some {
                let b = lookup(self@.epics, run)->0;
                lemma_put(
                    self@.epics,
                    run,
                    BreakerModel {
                        counter: Counter { count: 0, latched: false, ..b.counter },
                        ..b
                    },
                );
                lemma_put(
                    self@.epics,
                    run,
                    BreakerModel { counter: Counter { latched: true, ..b.counter }, ..b },
                );
            }
        }
        let found = match self.epics.get(project, epic) {
            Some(b) => Some((b.count, opt_owned(opt_str(&b.observed_head)))),
            None => None,
        };
        match found {
            None => None,
            Some((events, head)) => match parked {
                Some(generation) => {
                    self.reset_count(project, epic);
                    Some(
                        AuditRow {
                            project: owned(project),
                            epic: owned(epic),
                            event: AuditEventKind::Alert,
                            generation,
                            session_id,
                            details: AuditDetails::CircuitBreaker {
                                epic: owned(epic),
                                events,
                                head,
                            },
                        },
                    )
                },
                None => {
                    self.set_latch(project, epic, true);
                    None
                },
            },
        }
    }

    /// Sets the latch of a run's breaker.
    fn set_latch(&mut self, project: &str, epic: &str, latched: bool)
        requires
            old(self).wf(),
            lookup(old(self)@.epics, (project@, epic@)) is Some,
        ensures
            final(self)@ == old(self)@.with_counter(
                (project@, epic@),
                Counter { latched, ..lookup(old(self)@.epics, (project@, epic@))->0.counter },
            ),
            final(self).wf(),
    {
        if let Some(b) = self.epics.get(project, epic) {
            let changed = EpicBreaker {
                working_dir: b.working_dir.clone(),
                observed_head: opt_owned(opt_str(&b.observed_head)),
                count: b.count,
                latched,
            };
            self.epics.insert(RunKey::new(project, epic), changed);
        }
    }

    /// Starts the count of a run's breaker anew.
    fn reset_count(&mut self, project: &str, epic: &str)
        requires
            old(self).wf(),
            lookup(old(self)@.epics, (project@, epic@)) is Some,
        ensures
            final(self)@ == old(self)@.with_counter(
                (project@, epic@),
                Counter {
                    count: 0,
                    latched: false,
                    ..lookup(old(self)@.epics, (project@, epic@))->0.counter
                },
            ),
            final(self).wf(),
    {
        if let Some(b) = self.epics.get(project, epic) {
            let changed = EpicBreaker {
                working_dir: b.working_dir.clone(),
                observed_head: opt_owned(opt_str(&b.observed_head)),
                count: 0,
                latched: false,
            };
            self.epics.insert(RunKey::new(project, epic), changed);
        }
    }
}

/// The live sessions of a run, in order.
fn live_sessions(sessions: &Vec<SessionSnapshot>, project: &str, epic: &str) -> (live: Vec<
    (u32, u32, SupervisorState),
>)
    ensures
        live@ == live_of(sessions@, (project@, epic@)),
{
    let mut live: Vec<(u32, u32, SupervisorState)> = Vec::new();
    let ghost run: Run = (project@, epic@);
    let mut i: usize = 0;
    proof {
        assert(sessions@.take(0) =~= Seq::empty());
    }
    while i < sessions.len()
        invariant
            i <= sessions.len(),
            run == (project@, epic@),
            live@ == live_of(sessions@.take(i as int), run),
        decreases sessions.len() - i,
    {
        let s = &sessions[i];
        proof {
            assert(sessions@.take(i + 1).drop_last() =~= sessions@.take(i as int));
        }
        if s.is_of(project, epic) && !s.state.is_terminal() {
            live.push((s.session_id, s.generation, s.state));
        }
        i = i + 1;
    }
    proof {
        assert(sessions@.take(i as int) =~= sessions@);
    }
    live
}

// ---------------------------------------------------------------------------
// Laws
// ---------------------------------------------------------------------------

/// An unknown HEAD never trips: however many events come with it, the counter is
/// what it was.
pub proof fn law_unknown_head_never_counts(counter: Counter, breaker_events: u32)
    ensures
        counter.next(None) == counter,
        !counter.due(breaker_events) ==> !counter.next(None).due(breaker_events),
{
}

/// A moved HEAD is progress: the count starts anew and a due trip is off.
pub proof fn law_progress_resets(counter: Counter, head: Seq<char>, breaker_events: u32)
    requires
        counter.observed != Some(head),
        breaker_events > 0,
    ensures
        counter.next(Some(head)).count == 0,
        !counter.next(Some(head)).due(breaker_events),
{
}

/// A trip fires once: a parked session leaves a breaker that is not due until so
/// many more events came without progress.
pub proof fn law_a_trip_fires_once(
    m: ProgressModel,
    run: Run,
    breaker_events: u32,
)
    requires
        m.wf(),
        lookup(m.epics, run) is Some,
        breaker_events > 0,
    ensures
        ({
            let b = lookup(m.epics, run)->0;
            let after = m.with_counter(run, Counter { count: 0, latched: false, ..b.counter });
            lookup(after.epics, run) matches Some(c) && !c.counter.due(breaker_events)
                && c.counter.observed == b.counter.observed
        }),
{
    let b = lookup(m.epics, run)->0;
    lemma_put(
        m.epics,
        run,
        BreakerModel { counter: Counter { count: 0, latched: false, ..b.counter }, ..b },
    );
}

/// So many events in a row without progress make a trip due, no sooner.
pub proof fn law_count_of_events(counter: Counter, head: Seq<char>, n: nat, breaker_events: u32)
    requires
        counter.observed == Some(head),
        counter.count == 0,
        !counter.latched,
        breaker_events > 0,
        n <= u32::MAX,
    ensures
        after_events(counter, head, n).due(breaker_events) <==> n >= breaker_events,
{
    lemma_after_events(counter, head, n);
}

/// The counter after `n` events at the same HEAD.
pub open spec fn after_events(counter: Counter, head: Seq<char>, n: nat) -> Counter
    decreases n,
{
    if n == 0 {
        counter
    } else {
        after_events(counter, head, (n - 1) as nat).next(Some(head))
    }
}

proof fn lemma_after_events(counter: Counter, head: Seq<char>, n: nat)
    requires
        counter.observed == Some(head),
        counter.count == 0,
        !counter.latched,
        n <= u32::MAX,
    ensures
        after_events(counter, head, n) == (Counter { count: n as u32, ..counter }),
    decreases n,
{
    if n > 0 {
        lemma_after_events(counter, head, (n - 1) as nat);
    }
}

/// What the tracker writes never feeds it: its own alerts do not count.
pub proof fn law_own_alerts_do_not_count(row: AuditRow)
    requires
        row.event is Alert,
        row.details is CircuitBreaker || row.details is HandoffChurn,
    ensures
        own_event(row.event, row.details.kind_text()),
{
}

/// The first generation starts from a clean breaker; a later one keeps the count
/// and the latch of its run.
pub proof fn law_generations_and_the_count(
    m: ProgressModel,
    run: Run,
    generation: u32,
    dir: Seq<char>,
    breaker_events: u32,
)
    requires
        breaker_events > 0,
    ensures
        !m.registered_breaker(run, 1, dir).counter.due(breaker_events),
        generation != 1 && lookup(m.epics, run) is Some ==> m.registered_breaker(
            run,
            generation,
            dir,
        ).counter == lookup(m.epics, run)->0.counter,
{
}

/// The tear-down of a session never touches the breaker of another run, and takes
/// that of its own run only with the last baseline.
pub proof fn law_removal_prunes_only_its_own_run(m: ProgressModel, session_id: u32, other: Run)
    requires
        m.wf(),
        lookup(m.baselines, session_id) matches Some(b) && b.run != other,
    ensures
        ({
            let b = lookup(m.baselines, session_id)->0;
            lookup(without(m.epics, b.run), other) == lookup(m.epics, other)
        }),
{
    let b = lookup(m.baselines, session_id)->0;
    lemma_without(m.epics, b.run);
}

} // verus!
