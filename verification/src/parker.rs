//! The allowance parker: what it does when the token allowance runs low.
//!
//! A soft crossing winds sessions down. A hard crossing, or an outside condition
//! such as lost credentials, engages a sweep that parks one session at a time. When
//! the sweep is done, every parked run gets a timer to resume at, unless an outside
//! condition parked it: then its release resumes it.

use std::collections::HashSet;
use vstd::prelude::*;
use crate::audit::{AuditDetails, AuditEventKind, AuditRow};
use crate::clock::{
    add_seconds, format_rfc3339, lemma_plus_valid, moment_of, parse_rfc3339, rfc3339_moment,
    rfc3339_text, utc_now, Moment, LAST_SECOND, YEAR_9999,
};
use crate::handoff_file::opt_view;
use crate::injector::{InjectorModel, SamuraiInjector};
use crate::parker_laws::{is_timer_of, law_only_its_own_timer_counts_for_a_run};
use crate::prompts::pin_view;
use crate::run_map::RunMap;
use crate::runs::{
    are_first_of_projects, ascending, first_of_projects, run_views, sort_runs, Run, RunKey,
};
use crate::session::{InstructionKind, SessionSnapshot, SupervisorState};
use crate::table::{distinct_keys, lemma_lookup, lemma_lookup_at, lemma_put, lookup, put};
use crate::text::{owned, same};

verus! {

/// How long after the window's reset a run resumes, before its jitter.
pub const RESUME_DELAY_SECS: i64 = 300;

/// The reason of an ordinary park: the allowance ran out.
pub const PARK_REASON_ALLOWANCE: &'static str = "allowance";

/// The outside condition that credentials were lost.
pub const GH_AUTH_LOST: &'static str = "gh_auth_lost";

/// What resumes a run once the credentials are back.
pub const GH_AUTH_RESTORED: &'static str = "gh_auth_restored";

/// The reason of a timer that resumes a parked run.
pub const PARK_TIMER_REASON: &'static str = "park";

// ---------------------------------------------------------------------------
// Decisions on plain values
// ---------------------------------------------------------------------------

/// Whether a soft crossing winds a session down: it works, and nothing is under way
/// for it.
pub fn soft_eligible(
    state: SupervisorState,
    in_flight: Option<InstructionKind>,
    has_pending: bool,
) -> (r: bool)
    ensures
        r == (state is Working && in_flight is None && !has_pending),
{
    state == SupervisorState::Working && in_flight.is_none() && !has_pending
}

/// `a` is parked before `b`: the higher context reading first, an unknown one last,
/// the lower id first among equals.
pub open spec fn parks_before(a: (u32, Option<u64>), b: (u32, Option<u64>)) -> bool {
    match (a.1, b.1) {
        (Some(p), Some(q)) => p > q || (p == q && a.0 < b.0),
        (Some(_), None) => true,
        (None, Some(_)) => false,
        (None, None) => a.0 < b.0,
    }
}

/// The order in which a sweep parks: highest context reading first, unknown last,
/// session id as the tiebreak.
pub fn candidate_order(a: &(u32, Option<u64>), b: &(u32, Option<u64>)) -> (order:
    std::cmp::Ordering)
    ensures
        order is Less <==> parks_before(*a, *b),
        order is Greater <==> parks_before(*b, *a),
        order is Equal <==> *a == *b,
{
    if comes_first(a, b) {
        std::cmp::Ordering::Less
    } else if comes_first(b, a) {
        std::cmp::Ordering::Greater
    } else {
        std::cmp::Ordering::Equal
    }
}

fn comes_first(a: &(u32, Option<u64>), b: &(u32, Option<u64>)) -> (r: bool)
    ensures
        r == parks_before(*a, *b),
{
    match (a.1, b.1) {
        (Some(p), Some(q)) => p > q || (p == q && a.0 < b.0),
        (Some(_), None) => true,
        (None, Some(_)) => false,
        (None, None) => a.0 < b.0,
    }
}

/// A session holds the sweep open.
pub open spec fn holds_open(state: SupervisorState, has_pending: bool, failed: bool) -> bool {
    match state {
        SupervisorState::Working => !failed,
        SupervisorState::ParkRequested => !failed && has_pending,
        SupervisorState::HandoffRequested => has_pending,
        SupervisorState::HandoffWritten => true,
        _ => false,
    }
}

/// Whether a session holds the sweep open: one that is still to park, a park under
/// way, a handoff that is completing. One whose ladder is used up does not.
pub fn blocks_completion(state: SupervisorState, has_pending: bool, failed: bool) -> (r: bool)
    ensures
        r == holds_open(state, has_pending, failed),
{
    match state {
        SupervisorState::Working => !failed,
        SupervisorState::ParkRequested => !failed && has_pending,
        SupervisorState::HandoffRequested => has_pending,
        SupervisorState::HandoffWritten => true,
        _ => false,
    }
}

/// The reset time with another folded in: the later known one wins.
pub open spec fn merged(current: Option<Moment>, other: Option<Moment>) -> Option<Moment> {
    match (current, other) {
        (Some(c), Some(p)) => Some(c.later(p)),
        (Some(c), None) => Some(c),
        (None, p) => p,
    }
}

/// The moment that an optional text names.
pub open spec fn named_moment(text: Option<Seq<char>>) -> Option<Moment> {
    match text {
        Some(t) => moment_of(rfc3339_moment(t)),
        None => None,
    }
}

/// Folds the reset time of one crossing into the sweep's. A text that names no
/// moment never erases a known one.
pub fn merge_resets_at(
    current: Option<Moment>,
    event_resets_at: Option<&str>,
) -> (merged_at: Option<Moment>)
    requires
        usable(current),
    ensures
        merged_at == merged(current, named_moment(pin_view(event_resets_at))),
        usable(merged_at),
{
    let parsed = match event_resets_at {
        Some(text) => parse_rfc3339(text),
        None => None,
    };
    later_known(current, parsed)
}

/// The later of two moments, as far as they are known.
pub fn later_known(current: Option<Moment>, other: Option<Moment>) -> (r: Option<Moment>)
    ensures
        r == merged(current, other),
{
    match (current, other) {
        (Some(c), Some(p)) => if c.is_before(p) {
            Some(p)
        } else {
            Some(c)
        },
        (Some(c), None) => Some(c),
        (None, p) => p,
    }
}

/// A known reset time leaves room for every delay and jitter.
pub open spec fn usable(resets_at: Option<Moment>) -> bool {
    resets_at matches Some(m) ==> m.valid() && m.secs <= YEAR_9999 + 86_400
}

/// When a run resumes: some time after the reset, by its jitter.
pub open spec fn fire_time(resets_at: Moment, jitter: u32) -> Moment {
    resets_at.plus(RESUME_DELAY_SECS + jitter)
}

/// When a run resumes: five minutes after the reset and its own jitter.
pub fn fire_at_for(resets_at: Moment, jitter: u32) -> (fire_at: Moment)
    requires
        resets_at.valid(),
        resets_at.secs + RESUME_DELAY_SECS + jitter <= LAST_SECOND,
    ensures
        fire_at == fire_time(resets_at, jitter),
        fire_at.valid(),
{
    proof {
        lemma_plus_valid(resets_at, RESUME_DELAY_SECS + jitter);
    }
    add_seconds(resets_at, RESUME_DELAY_SECS + jitter as i64)
}

/// What a released park is resumed for: the fix, where the reason has one.
pub open spec fn resume_trigger_text(reason: Seq<char>) -> Seq<char> {
    if reason == GH_AUTH_LOST@ {
        GH_AUTH_RESTORED@
    } else {
        reason
    }
}

/// What a released park is resumed for. The park names what broke, the resume what
/// was fixed; a reason without a known fix stays what it is.
pub fn resume_trigger_for(reason: &str) -> (trigger: &str)
    ensures
        trigger@ == resume_trigger_text(reason@),
{
    if same(reason, GH_AUTH_LOST) {
        GH_AUTH_RESTORED
    } else {
        reason
    }
}

/// A new timer replaces what is armed: nothing, an earlier one, or one that names
/// no moment.
pub open spec fn replaces(existing: Option<Seq<char>>, new_fire_at: Moment) -> bool {
    match named_moment(existing) {
        Some(armed) => armed.before(new_fire_at),
        None => true,
    }
}

/// Whether a new timer replaces what is armed; a later one, or one at the same
/// moment, is kept.
pub fn should_arm(existing_fire_at: Option<&str>, new_fire_at: Moment) -> (r: bool)
    ensures
        r == replaces(pin_view(existing_fire_at), new_fire_at),
{
    let existing = match existing_fire_at {
        Some(text) => parse_rfc3339(text),
        None => None,
    };
    arms_over(existing, new_fire_at)
}

/// Whether a new timer replaces one at a known moment, or an unknown one.
pub fn arms_over(existing: Option<Moment>, new_fire_at: Moment) -> (r: bool)
    ensures
        r == (existing matches Some(armed) ==> armed.before(new_fire_at)),
{
    match existing {
        Some(armed) => armed.is_before(new_fire_at),
        None => true,
    }
}

// ---------------------------------------------------------------------------
// The sweep
// ---------------------------------------------------------------------------

/// An event of the allowance watcher, as far as the parker acts on it.
#[derive(Debug)]
pub enum AllowanceEvent {
    /// The soft threshold was crossed.
    SoftCrossed,
    /// A hard threshold was crossed.
    HardCrossed {
        /// When its window resets.
        resets_at: Option<String>,
    },
    /// The usage fell back below the soft threshold.
    SoftRecovered,
    /// No window governs the allowance.
    NoGoverningWindow,
}

/// What the parker does about an event of the allowance watcher.
#[derive(Debug, Clone, Copy, PartialEq, Eq, Structural)]
pub enum ParkerTask {
    /// [`SamuraiParker::soft_winddown`].
    WindDown,
    /// [`SamuraiParker::engage_hard`], then a step of the sweep.
    EngageHard,
    /// [`SamuraiParker::winddown_allclear`].
    AllClear,
    /// Nothing.
    Nothing,
}

/// What the parker does about an event of the allowance watcher.
pub fn on_allowance_event(event: &AllowanceEvent) -> (task: ParkerTask)
    ensures
        task == (match event {
            AllowanceEvent::SoftCrossed => ParkerTask::WindDown,
            AllowanceEvent::HardCrossed { .. } => ParkerTask::EngageHard,
            AllowanceEvent::SoftRecovered => ParkerTask::AllClear,
            AllowanceEvent::NoGoverningWindow => ParkerTask::Nothing,
        }),
{
    match event {
        AllowanceEvent::SoftCrossed => ParkerTask::WindDown,
        AllowanceEvent::HardCrossed { .. } => ParkerTask::EngageHard,
        AllowanceEvent::SoftRecovered => ParkerTask::AllClear,
        AllowanceEvent::NoGoverningWindow => ParkerTask::Nothing,
    }
}

/// The state of the parker.
pub ghost struct ParkerModel {
    /// A sweep is engaged.
    pub engaged: bool,
    /// The sessions that this sweep could not park.
    pub failed: Set<u32>,
    /// The runs that this sweep parked or absorbed.
    pub parked: Set<Run>,
    /// The latest known reset time of the sweep's crossings.
    pub resets_at: Option<Moment>,
    /// The reset time of the last sweep that had one.
    pub last_resets_at: Option<Moment>,
    /// The sweep arms no timers.
    pub suppress_timers: bool,
    /// The outside condition that engaged the sweep.
    pub external_reason: Option<Seq<char>>,
    /// The condition that was released while its sweep ran.
    pub pending_release: Option<Seq<char>>,
    /// An all-clear came while the sweep ran.
    pub pending_allclear: bool,
    /// The sessions that were wound down and not cleared.
    pub wound_down: Set<u32>,
    /// Why each parked run is parked.
    pub park_reasons: Seq<(Run, Seq<char>)>,
}

impl ParkerModel {
    /// No run has two reasons, and the reset times leave room for every jitter.
    pub open spec fn wf(self) -> bool {
        &&& distinct_keys(self.park_reasons)
        &&& usable(self.resets_at)
        &&& usable(self.last_resets_at)
    }

    /// After an outside condition parks every session. A sweep under way keeps its
    /// own timers.
    pub open spec fn after_external(self, reason: Seq<char>) -> ParkerModel {
        if self.engaged {
            self
        } else {
            ParkerModel {
                engaged: true,
                suppress_timers: true,
                external_reason: Some(reason),
                ..self
            }
        }
    }

    /// After a hard crossing. It brings a reset time, so the sweep arms timers again
    /// and is no outside condition's any more.
    pub open spec fn after_hard(self, resets_at: Option<Moment>) -> ParkerModel {
        ParkerModel {
            engaged: true,
            resets_at: merged(self.resets_at, resets_at),
            suppress_timers: false,
            external_reason: None,
            ..self
        }
    }

    /// Why the runs of the sweep are parked.
    pub open spec fn reason(self) -> Seq<char> {
        match self.external_reason {
            Some(r) => r,
            None => PARK_REASON_ALLOWANCE@,
        }
    }

    /// After the sweep is done.
    pub open spec fn after_completion(self, sorted: Seq<Run>) -> ParkerModel {
        ParkerModel {
            engaged: false,
            failed: Set::empty(),
            parked: Set::empty(),
            resets_at: None,
            last_resets_at: if self.resets_at is Some {
                self.resets_at
            } else {
                self.last_resets_at
            },
            suppress_timers: false,
            external_reason: None,
            pending_release: None,
            pending_allclear: false,
            park_reasons: with_reasons(self.park_reasons, sorted, self.reason()),
            ..self
        }
    }

    /// After a condition was released: its runs are taken, and a release of the sweep's
    /// own condition is remembered.
    pub open spec fn after_release(self, reason: Seq<char>) -> ParkerModel {
        ParkerModel {
            pending_release: if self.external_reason == Some(reason) {
                Some(reason)
            } else {
                self.pending_release
            },
            park_reasons: self.park_reasons.filter(parked_otherwise(reason)),
            ..self
        }
    }

    /// A park is under way: one at a time.
    pub open spec fn park_in_flight(
        self,
        injector: InjectorModel,
        sessions: Seq<SessionSnapshot>,
    ) -> bool {
        exists|i: int|
            0 <= i < sessions.len() && #[trigger] self.parking(injector, sessions[i])
    }

    /// The session is being parked.
    pub open spec fn parking(self, injector: InjectorModel, session: SessionSnapshot) -> bool {
        &&& session.state is ParkRequested
        &&& !self.failed.contains(session.session_id)
        &&& injector.pends(session.session_id)
    }

    /// The session can be parked: it works, nothing is in flight, and it was not
    /// skipped.
    pub open spec fn parkable(self, session: SessionSnapshot) -> bool {
        &&& session.state is Working
        &&& session.in_flight is None
        &&& !self.failed.contains(session.session_id)
    }

    /// A session holds the sweep open.
    pub open spec fn blocked(
        self,
        injector: InjectorModel,
        sessions: Seq<SessionSnapshot>,
    ) -> bool {
        exists|i: int| 0 <= i < sessions.len() && #[trigger] self.blocks(injector, sessions[i])
    }

    /// The session holds the sweep open.
    pub open spec fn blocks(self, injector: InjectorModel, session: SessionSnapshot) -> bool {
        holds_open(
            session.state,
            injector.pends(session.session_id),
            self.failed.contains(session.session_id),
        )
    }
}

/// The reasons with `reason` for every one of `runs`.
pub open spec fn with_reasons(
    reasons: Seq<(Run, Seq<char>)>,
    runs: Seq<Run>,
    reason: Seq<char>,
) -> Seq<(Run, Seq<char>)>
    decreases runs.len(),
{
    if runs.len() == 0 {
        reasons
    } else {
        put(with_reasons(reasons, runs.drop_last(), reason), runs.last(), reason)
    }
}

/// The sessions that can be parked, with their context readings, in listing order.
pub open spec fn parkable_of(
    m: ParkerModel,
    sessions: Seq<SessionSnapshot>,
    percents: Seq<(u32, u64)>,
) -> Seq<(u32, Option<u64>)>
    decreases sessions.len(),
{
    if sessions.len() == 0 {
        Seq::empty()
    } else {
        let init = parkable_of(m, sessions.drop_last(), percents);
        let last = sessions.last();
        if m.parkable(last) {
            init.push((last.session_id, lookup(percents, last.session_id)))
        } else {
            init
        }
    }
}

/// `ordered` lists `entries` in the order of parking.
pub open spec fn is_park_order(
    ordered: Seq<(u32, Option<u64>)>,
    entries: Seq<(u32, Option<u64>)>,
) -> bool {
    &&& ordered.to_multiset() == entries.to_multiset()
    &&& forall|i: int, j: int|
        0 <= i < j < ordered.len() ==> !parks_before(#[trigger] ordered[j], #[trigger] ordered[i])
}

/// The next step of a sweep.
#[derive(Debug)]
pub enum SweepStep {
    /// No sweep is engaged.
    Disengaged,
    /// A park is under way: wait for it.
    Waiting,
    /// Move these sessions to `ParkRequested`, one after the other, until one is
    /// moved; begin its park. Where none is, try [`SamuraiParker::complete_sweep`].
    Park {
        /// The sessions with their context readings, in order.
        candidates: Vec<(u32, Option<u64>)>,
    },
}

/// A timer that is armed.
#[derive(Debug)]
pub struct ArmedTimer {
    /// The run.
    pub key: RunKey,
    /// When it fires.
    pub fire_at: String,
}

/// A timer to be armed.
#[derive(Debug)]
pub struct ResumeTimer {
    /// The run.
    pub key: RunKey,
    /// When it fires.
    pub fire_at: String,
    /// Why.
    pub reason: String,
}

/// What becomes of one parked run's timer.
#[derive(Debug)]
pub enum TimerStep {
    /// No reset time is known: an alert instead of a guess.
    Alert {
        /// The alert.
        row: AuditRow,
    },
    /// A timer at a later moment, or at the same one, is armed: it stays.
    Keep,
    /// Arm it, then [`timer_row`].
    Arm {
        /// The timer.
        timer: ResumeTimer,
    },
}

/// The runs of a sweep that is done, and what its end sets off.
#[derive(Debug)]
pub struct SweepOutcome {
    /// The parked runs in order, each once.
    pub runs: Vec<RunKey>,
    /// The reset time to arm their timers from.
    pub resets_at: Option<Moment>,
    /// Whether their timers are armed at all.
    pub arm_timers: bool,
    /// Whether an all-clear was held back.
    pub allclear: bool,
    /// The release that was held back.
    pub release: Option<String>,
}

/// What follows when a parked session is torn down.
#[derive(Debug, Clone, Copy, PartialEq, Eq, Structural)]
pub enum ParkEnd {
    /// The sweep goes on.
    Advance,
    /// The sweep was done before: arm the run's timer from the last reset time.
    ArmLate {
        /// That reset time.
        resets_at: Option<Moment>,
    },
    /// Nothing.
    Nothing,
}

/// The reading of a session.
pub fn percent_of(percents: &Vec<(u32, u64)>, id: u32) -> (percent: Option<u64>)
    ensures
        percent == lookup(percents@, id),
{
    let mut i: usize = 0;
    proof {
        assert(percents@.skip(0) =~= percents@);
    }
    while i < percents.len()
        invariant
            i <= percents.len(),
            lookup(percents@.skip(i as int), id) == lookup(percents@, id),
        decreases percents.len() - i,
    {
        proof {
            assert(percents@.skip(i as int).drop_first() =~= percents@.skip(i + 1));
        }
        if percents[i].0 == id {
            return Some(percents[i].1);
        }
        i = i + 1;
    }
    None
}

/// Sorts into the order of parking.
fn sort_candidates(entries: &Vec<(u32, Option<u64>)>) -> (ordered: Vec<(u32, Option<u64>)>)
    ensures
        is_park_order(ordered@, entries@),
{
    let mut ordered: Vec<(u32, Option<u64>)> = Vec::new();
    let mut k: usize = 0;
    proof {
        assert(entries@.take(0) =~= ordered@);
    }
    while k < entries.len()
        invariant
            k <= entries.len(),
            is_park_order(ordered@, entries@.take(k as int)),
        decreases entries.len() - k,
    {
        let e: (u32, Option<u64>) = entries[k];
        let ghost before = ordered@;
        let mut i: usize = 0;
        while i < ordered.len() && !comes_first(&e, &ordered[i])
            invariant
                i <= ordered.len(),
                before == ordered@,
                forall|j: int| 0 <= j < i ==> !parks_before(e, #[trigger] ordered@[j]),
            ensures
                i < ordered.len() ==> parks_before(e, ordered@[i as int]),
            decreases ordered.len() - i,
        {
            i = i + 1;
        }
        ordered.insert(i, e);
        proof {
            assert(entries@.take(k + 1) =~= entries@.take(k as int).push(e));
            lemma_order_insert(before, entries@.take(k as int), e, i as int);
        }
        k = k + 1;
    }
    proof {
        assert(entries@.take(k as int) =~= entries@);
    }
    ordered
}

proof fn lemma_order_insert(
    ordered: Seq<(u32, Option<u64>)>,
    entries: Seq<(u32, Option<u64>)>,
    e: (u32, Option<u64>),
    i: int,
)
    requires
        is_park_order(ordered, entries),
        0 <= i <= ordered.len(),
        forall|j: int| 0 <= j < i ==> !parks_before(e, #[trigger] ordered[j]),
        i < ordered.len() ==> parks_before(e, ordered[i]),
    ensures
        is_park_order(ordered.insert(i, e), entries.push(e)),
{
    broadcast use vstd::seq_lib::group_to_multiset_ensures;

    let more = ordered.insert(i, e);
    assert(more.to_multiset() =~= entries.push(e).to_multiset());
    assert forall|x: int, y: int| 0 <= x < y < more.len() implies !parks_before(
        #[trigger] more[y],
        #[trigger] more[x],
    ) by {
        if y < i {
            assert(more[x] == ordered[x] && more[y] == ordered[y]);
        } else if y == i {
            assert(more[x] == ordered[x]);
        } else if x < i {
            assert(more[x] == ordered[x] && more[y] == ordered[y - 1]);
        } else if x == i {
            assert(more[y] == ordered[y - 1]);
            assert(!parks_before(ordered[y - 1], ordered[i]) || y - 1 == i);
        } else {
            assert(more[x] == ordered[x - 1] && more[y] == ordered[y - 1]);
        }
    }
}

/// The allowance parker.
#[derive(Debug)]
pub struct SamuraiParker {
    engaged: bool,
    failed: HashSet<u32>,
    parked: Vec<RunKey>,
    resets_at: Option<Moment>,
    last_resets_at: Option<Moment>,
    suppress_timers: bool,
    external_reason: Option<String>,
    pending_release: Option<String>,
    pending_allclear: bool,
    wound_down: HashSet<u32>,
    park_reasons: RunMap<String>,
}

impl View for SamuraiParker {
    type V = ParkerModel;

    closed spec fn view(&self) -> ParkerModel {
        ParkerModel {
            engaged: self.engaged,
            failed: self.failed@,
            parked: run_views(self.parked@).to_set(),
            resets_at: self.resets_at,
            last_resets_at: self.last_resets_at,
            suppress_timers: self.suppress_timers,
            external_reason: opt_view(self.external_reason),
            pending_release: opt_view(self.pending_release),
            pending_allclear: self.pending_allclear,
            wound_down: self.wound_down@,
            park_reasons: self.park_reasons@,
        }
    }
}

/// The row is an alert about an outside condition, for one run.
pub open spec fn is_external_row(row: AuditRow, run: Run, reason: Seq<char>) -> bool {
    &&& row.is_about(run.0, run.1, AuditEventKind::Alert, 0, 0)
    &&& row.details matches AuditDetails::ExternalPark { reason: text } && text@ == reason
}

/// The runs of the rows.
pub open spec fn row_runs(rows: Seq<AuditRow>) -> Seq<Run> {
    rows.map_values(|r: AuditRow| (r.project@, r.epic@))
}

/// The runs of the sessions, or the account where there are none.
pub open spec fn alert_targets(sessions: Seq<SessionSnapshot>, account: Run) -> Seq<Run> {
    if sessions.len() == 0 {
        seq![account]
    } else {
        sessions.map_values(|s: SessionSnapshot| s.run())
    }
}

impl SamuraiParker {
    /// The parker is valid.
    pub open spec fn wf(&self) -> bool {
        self@.wf()
    }

    /// A parker with nothing engaged.
    pub fn new() -> (parker: Self)
        ensures
            parker.wf(),
            parker@ == (ParkerModel {
                engaged: false,
                failed: Set::empty(),
                parked: Set::empty(),
                resets_at: None,
                last_resets_at: None,
                suppress_timers: false,
                external_reason: None,
                pending_release: None,
                pending_allclear: false,
                wound_down: Set::empty(),
                park_reasons: Seq::empty(),
            }),
    {
        let parker = SamuraiParker {
            engaged: false,
            failed: HashSet::new(),
            parked: Vec::new(),
            resets_at: None,
            last_resets_at: None,
            suppress_timers: false,
            external_reason: None,
            pending_release: None,
            pending_allclear: false,
            wound_down: HashSet::new(),
            park_reasons: RunMap::new(),
        };
        proof {
            assert(run_views(parker.parked@) =~= Seq::empty());
            assert(parker@.parked =~= Set::empty());
        }
        parker
    }

    /// Whether a sweep is engaged: from the first crossing until its timers are
    /// armed.
    pub fn parking_engaged(&self) -> (r: bool)
        ensures
            r == self@.engaged,
    {
        self.engaged
    }

    /// An outside condition parks every session. Gives one alert for every project with
    /// a supervised session, in order, stamped with the first of the project's runs; or
    /// one for the account where nothing is supervised.
    pub fn engage_external_park(
        &mut self,
        reason: &str,
        sessions: &Vec<SessionSnapshot>,
        account: &RunKey,
    ) -> (rows: Vec<AuditRow>)
        requires
            old(self).wf(),
        ensures
            final(self)@ == old(self)@.after_external(reason@),
            are_first_of_projects(row_runs(rows@), alert_targets(sessions@, account@)),
            forall|i: int|
                0 <= i < rows@.len() ==> is_external_row(
                    #[trigger] rows@[i],
                    row_runs(rows@)[i],
                    reason@,
                ),
            final(self).wf(),
    {
        if !self.engaged {
            self.engaged = true;
            self.suppress_timers = true;
            self.external_reason = Some(owned(reason));
        }
        let mut keys: Vec<RunKey> = Vec::new();
        let mut i: usize = 0;
        while i < sessions.len()
            invariant
                i <= sessions.len(),
                keys.len() == i,
                forall|j: int| 0 <= j < i ==> (#[trigger] keys@[j])@ == sessions@[j].run(),
            decreases sessions.len() - i,
        {
            let s = &sessions[i];
            keys.push(RunKey { project: s.project.clone(), epic: s.epic.clone() });
            i = i + 1;
        }
        if sessions.len() == 0 {
            keys.push(account.copy());
        }
        proof {
            assert(run_views(keys@) =~= alert_targets(sessions@, account@));
        }
        let sorted = first_of_projects(&keys);
        let ghost targets = run_views(sorted@);
        let mut rows: Vec<AuditRow> = Vec::new();
        let mut k: usize = 0;
        while k < sorted.len()
            invariant
                k <= sorted.len(),
                targets == run_views(sorted@),
                rows.len() == k,
                forall|j: int|
                    0 <= j < k ==> is_external_row(#[trigger] rows@[j], targets[j], reason@),
            decreases sorted.len() - k,
        {
            let key = &sorted[k];
            rows.push(
                AuditRow {
                    project: key.project.clone(),
                    epic: key.epic.clone(),
                    event: AuditEventKind::Alert,
                    generation: 0,
                    session_id: 0,
                    details: AuditDetails::ExternalPark { reason: owned(reason) },
                },
            );
            k = k + 1;
        }
        proof {
            assert(row_runs(rows@) =~= targets);
        }
        rows
    }

    /// A hard threshold was crossed: engages a sweep, or folds its reset time into
    /// the one under way.
    pub fn engage_hard(&mut self, resets_at: Option<&str>)
        requires
            old(self).wf(),
        ensures
            final(self)@ == old(self)@.after_hard(named_moment(pin_view(resets_at))),
            final(self).wf(),
    {
        self.engaged = true;
        self.resets_at = merge_resets_at(self.resets_at, resets_at);
        self.suppress_timers = false;
        self.external_reason = None;
    }

    /// Puts a run among those of the sweep.
    fn add_parked(&mut self, project: &str, epic: &str)
        requires
            old(self).wf(),
        ensures
            final(self)@ == (ParkerModel {
                parked: old(self)@.parked.insert((project@, epic@)),
                ..old(self)@
            }),
            final(self).wf(),
    {
        let key = RunKey::new(project, epic);
        let ghost before = run_views(self.parked@);
        self.parked.push(key);
        proof {
            assert(run_views(self.parked@) =~= before.push((project@, epic@)));
            lemma_to_set_push(before, (project@, epic@));
        }
    }

    /// A handoff completed. While a sweep is engaged it is absorbed: its file is the
    /// park state, no successor is spawned, and its run gets a timer. Says whether
    /// it was; if so, a step of the sweep follows.
    pub fn absorb_handoff(&mut self, project: &str, epic: &str) -> (absorbed: bool)
        requires
            old(self).wf(),
        ensures
            absorbed == old(self)@.engaged,
            final(self)@ == (if old(self)@.engaged {
                ParkerModel { parked: old(self)@.parked.insert((project@, epic@)), ..old(self)@ }
            } else {
                old(self)@
            }),
            final(self).wf(),
    {
        if !self.engaged {
            return false;
        }
        self.add_parked(project, epic);
        true
    }

    /// A session was parked: its run is recorded. The session is torn down next, then
    /// [`Self::finish_park`].
    pub fn on_parked(&mut self, session: &SessionSnapshot)
        requires
            old(self).wf(),
        ensures
            final(self)@ == (ParkerModel {
                parked: old(self)@.parked.insert(session.run()),
                ..old(self)@
            }),
            final(self).wf(),
    {
        self.add_parked(session.project.as_str(), session.epic.as_str());
    }

    /// A parked session was torn down. A sweep under way goes on; where it was done
    /// before, the run's timer is armed late.
    pub fn finish_park(&mut self, project: &str, epic: &str) -> (end: ParkEnd)
        requires
            old(self).wf(),
        ensures
            ({
                let run = (project@, epic@);
                if old(self)@.engaged {
                    end is Advance && final(self)@ == old(self)@
                } else {
                    &&& end == (if old(self)@.parked.contains(run) {
                        ParkEnd::ArmLate { resets_at: old(self)@.last_resets_at }
                    } else {
                        ParkEnd::Nothing
                    })
                    &&& final(self)@ == (ParkerModel {
                        parked: old(self)@.parked.remove(run),
                        ..old(self)@
                    })
                }
            }),
            final(self).wf(),
    {
        if self.engaged {
            return ParkEnd::Advance;
        }
        let late: bool = self.take_parked(project, epic);
        if late {
            ParkEnd::ArmLate { resets_at: self.last_resets_at }
        } else {
            ParkEnd::Nothing
        }
    }

    /// Takes a run out of those of the sweep.
    fn take_parked(&mut self, project: &str, epic: &str) -> (was_there: bool)
        requires
            old(self).wf(),
        ensures
            was_there == old(self)@.parked.contains((project@, epic@)),
            final(self)@ == (ParkerModel {
                parked: old(self)@.parked.remove((project@, epic@)),
                ..old(self)@
            }),
            final(self).wf(),
    {
        let ghost all = run_views(self.parked@);
        let ghost run: Run = (project@, epic@);
        let mut left: Vec<RunKey> = Vec::new();
        let mut found: bool = false;
        let mut i: usize = 0;
        while i < self.parked.len()
            invariant
                i <= self.parked.len(),
                self.wf(),
                self@ == old(self)@,
                all == run_views(self.parked@),
                run == (project@, epic@),
                found == (exists|j: int| 0 <= j < i && #[trigger] all[j] == run),
                forall|r: Run|
                    #[trigger] run_views(left@).contains(r) <==> r != run && exists|j: int|
                        0 <= j < i && #[trigger] all[j] == r,
            decreases self.parked.len() - i,
        {
            let key = &self.parked[i];
            proof {
                assert(all[i as int] == key@);
            }
            let ghost before = run_views(left@);
            if key.is(project, epic) {
                found = true;
            } else {
                left.push(key.copy());
                proof {
                    assert(run_views(left@) =~= before.push(key@));
                }
            }
            proof {
                assert forall|r: Run|
                    #[trigger] run_views(left@).contains(r) <==> r != run && exists|j: int|
                        0 <= j < i + 1 && #[trigger] all[j] == r by {
                    lemma_contains_push(before, key@, r);
                    if before.contains(r) {
                        let j = choose|j: int| 0 <= j < i && #[trigger] all[j] == r;
                        assert(all[j] == r);
                    }
                    if r != run && (exists|j: int| 0 <= j < i + 1 && #[trigger] all[j] == r) {
                        let j = choose|j: int| 0 <= j < i + 1 && #[trigger] all[j] == r;
                        if j < i {
                            assert(before.contains(r));
                        }
                    }
                }
            }
            i = i + 1;
        }
        self.parked = left;
        proof {
            assert(found == all.contains(run));
            assert(self@.parked =~= old(self)@.parked.remove(run)) by {
                assert forall|r: Run| self@.parked.contains(r) == old(self)@.parked.remove(
                    run,
                ).contains(r) by {
                    assert(run_views(self.parked@).contains(r) <==> self@.parked.contains(r));
                    if all.contains(r) {
                        let j = choose|j: int| 0 <= j < all.len() && all[j] == r;
                        assert(all[j] == r);
                    }
                }
            }
        }
        found
    }

    /// A session could not be parked: the sweep skips it.
    pub fn on_park_failed(&mut self, session_id: u32)
        requires
            old(self).wf(),
        ensures
            final(self)@ == (ParkerModel {
                failed: old(self)@.failed.insert(session_id),
                ..old(self)@
            }),
            final(self).wf(),
    {
        broadcast use vstd::std_specs::hash::group_hash_axioms;

        self.failed.insert(session_id);
    }

    // -----------------------------------------------------------------------
    // Steps of the sweep
    // -----------------------------------------------------------------------

    /// The next step of the sweep: wait while a park is under way, else try the
    /// sessions that can be parked, in order.
    pub fn advance(
        &self,
        injector: &SamuraiInjector,
        sessions: &Vec<SessionSnapshot>,
        percents: &Vec<(u32, u64)>,
    ) -> (step: SweepStep)
        requires
            injector.wf(),
        ensures
            match step {
                SweepStep::Disengaged => !self@.engaged,
                SweepStep::Waiting => self@.engaged && self@.park_in_flight(injector@, sessions@),
                SweepStep::Park { candidates } => {
                    &&& self@.engaged
                    &&& !self@.park_in_flight(injector@, sessions@)
                    &&& is_park_order(
                        candidates@,
                        parkable_of(self@, sessions@, percents@),
                    )
                },
            },
    {
        broadcast use vstd::std_specs::hash::group_hash_axioms;

        if !self.engaged {
            return SweepStep::Disengaged;
        }
        let mut i: usize = 0;
        while i < sessions.len()
            invariant
                i <= sessions.len(),
                injector.wf(),
                self@.engaged,
                forall|j: int| 0 <= j < i ==> !#[trigger] self@.parking(injector@, sessions@[j]),
            decreases sessions.len() - i,
        {
            let s = &sessions[i];
            if s.state == SupervisorState::ParkRequested && !self.failed.contains(&s.session_id)
                && injector.has_pending(s.session_id) {
                proof {
                    assert(self@.parking(injector@, sessions@[i as int]));
                }
                return SweepStep::Waiting;
            }
            i = i + 1;
        }
        let mut entries: Vec<(u32, Option<u64>)> = Vec::new();
        let mut k: usize = 0;
        proof {
            assert(sessions@.take(0) =~= Seq::empty());
        }
        while k < sessions.len()
            invariant
                k <= sessions.len(),
                entries@ == parkable_of(self@, sessions@.take(k as int), percents@),
            decreases sessions.len() - k,
        {
            let s = &sessions[k];
            proof {
                assert(sessions@.take(k + 1).drop_last() =~= sessions@.take(k as int));
            }
            if s.state == SupervisorState::Working && s.in_flight.is_none()
                && !self.failed.contains(&s.session_id) {
                entries.push((s.session_id, percent_of(percents, s.session_id)));
            }
            k = k + 1;
        }
        proof {
            assert(sessions@.take(k as int) =~= sessions@);
        }
        SweepStep::Park { candidates: sort_candidates(&entries) }
    }

    /// Ends the sweep, unless a session holds it open. The reasons of the parked runs
    /// are recorded. The sweep stays engaged until [`Self::disengage`], which follows
    /// once the timers are armed.
    pub fn complete_sweep(
        &mut self,
        injector: &SamuraiInjector,
        sessions: &Vec<SessionSnapshot>,
    ) -> (outcome: Option<SweepOutcome>)
        requires
            old(self).wf(),
            injector.wf(),
        ensures
            match outcome {
                None => old(self)@.blocked(injector@, sessions@) && final(self)@ == old(self)@,
                Some(o) => {
                    &&& !old(self)@.blocked(injector@, sessions@)
                    &&& ascending(run_views(o.runs@))
                    &&& run_views(o.runs@).to_set() == old(self)@.parked
                    &&& o.resets_at == old(self)@.resets_at
                    &&& o.arm_timers == !old(self)@.suppress_timers
                    &&& o.allclear == old(self)@.pending_allclear
                    &&& opt_view(o.release) == old(self)@.pending_release
                    &&& final(self)@ == (ParkerModel {
                        engaged: old(self)@.engaged,
                        ..old(self)@.after_completion(run_views(o.runs@))
                    })
                },
            },
            final(self).wf(),
    {
        broadcast use vstd::std_specs::hash::group_hash_axioms;

        let mut i: usize = 0;
        while i < sessions.len()
            invariant
                i <= sessions.len(),
                self.wf(),
                injector.wf(),
                self@ == old(self)@,
                forall|j: int| 0 <= j < i ==> !#[trigger] self@.blocks(injector@, sessions@[j]),
            decreases sessions.len() - i,
        {
            let s = &sessions[i];
            if blocks_completion(
                s.state,
                injector.has_pending(s.session_id),
                self.failed.contains(&s.session_id),
            ) {
                proof {
                    assert(self@.blocks(injector@, sessions@[i as int]));
                }
                return None;
            }
            i = i + 1;
        }
        let runs = sort_runs(&self.parked);
        let ghost sorted = run_views(runs@);
        proof {
            assert(sorted.to_set() =~= self@.parked) by {
                assert forall|r: Run| sorted.to_set().contains(r) == self@.parked.contains(r) by {
                    assert(sorted.contains(r) <==> run_views(self.parked@).contains(r));
                }
            }
        }
        let reason = match &self.external_reason {
            Some(r) => r.clone(),
            None => owned(PARK_REASON_ALLOWANCE),
        };
        let resets_at = self.resets_at;
        let arm_timers: bool = !self.suppress_timers;
        let allclear: bool = self.pending_allclear;
        let release = match &self.pending_release {
            Some(r) => Some(r.clone()),
            None => None,
        };
        self.record_park_reasons(&runs, reason.as_str());
        self.parked = Vec::new();
        self.resets_at = None;
        if resets_at.is_some() {
            self.last_resets_at = resets_at;
        }
        self.suppress_timers = false;
        self.external_reason = None;
        self.pending_allclear = false;
        self.pending_release = None;
        self.failed.clear();
        proof {
            assert(run_views(self.parked@) =~= Seq::empty());
            assert(self@.parked =~= Set::empty());
        }
        Some(SweepOutcome { runs, resets_at, arm_timers, allclear, release })
    }

    /// Records why each run of a sweep is parked.
    fn record_park_reasons(&mut self, runs: &Vec<RunKey>, reason: &str)
        requires
            old(self).wf(),
        ensures
            final(self)@ == (ParkerModel {
                park_reasons: with_reasons(old(self)@.park_reasons, run_views(runs@), reason@),
                ..old(self)@
            }),
            final(self).wf(),
    {
        let ghost all = run_views(runs@);
        let mut i: usize = 0;
        proof {
            assert(all.take(0) =~= Seq::empty());
        }
        while i < runs.len()
            invariant
                i <= runs.len(),
                self.wf(),
                all == run_views(runs@),
                self@ == (ParkerModel {
                    park_reasons: with_reasons(
                        old(self)@.park_reasons,
                        all.take(i as int),
                        reason@,
                    ),
                    ..old(self)@
                }),
            decreases runs.len() - i,
        {
            proof {
                assert(all.take(i + 1).drop_last() =~= all.take(i as int));
                assert(all.take(i + 1).last() == runs@[i as int]@);
            }
            self.park_reasons.insert(runs[i].copy(), owned(reason));
            i = i + 1;
        }
        proof {
            assert(all.take(i as int) =~= all);
        }
    }

    /// The timers of a sweep that is done are armed: the sweep is over.
    pub fn disengage(&mut self)
        requires
            old(self).wf(),
        ensures
            final(self)@ == (ParkerModel { engaged: false, ..old(self)@ }),
            final(self).wf(),
    {
        self.engaged = false;
    }

    // -----------------------------------------------------------------------
    // Wind-downs
    // -----------------------------------------------------------------------

    /// A soft crossing: winds down every session that works with nothing under way,
    /// and remembers it. Gives what is typed at once.
    pub fn soft_winddown(
        &mut self,
        injector: &mut SamuraiInjector,
        sessions: &Vec<SessionSnapshot>,
        now: u128,
    ) -> (typed: Vec<(u32, String)>)
        requires
            old(self).wf(),
            old(injector).wf(),
            episodes_within(old(injector)@, sessions@, u32::MAX - sessions@.len()),
        ensures
            ({
                let end = winddowns(
                    Winddowns {
                        wound: old(self)@.wound_down,
                        injector: old(injector)@,
                        typed: Seq::empty(),
                    },
                    sessions@,
                    now,
                );
                &&& final(self)@ == (ParkerModel { wound_down: end.wound, ..old(self)@ })
                &&& final(injector)@ == end.injector
                &&& crate::injector::typed_views(typed@) == end.typed
            }),
            final(self).wf(),
            final(injector).wf(),
    {
        broadcast use vstd::std_specs::hash::group_hash_axioms;

        let mut typed: Vec<(u32, String)> = Vec::new();
        let ghost start = Winddowns {
            wound: self@.wound_down,
            injector: injector@,
            typed: Seq::empty(),
        };
        let mut i: usize = 0;
        proof {
            assert(sessions@.take(0) =~= Seq::empty());
            assert(crate::injector::typed_views(typed@) =~= Seq::empty());
        }
        while i < sessions.len()
            invariant
                i <= sessions.len(),
                self.wf(),
                injector.wf(),
                episodes_within(injector@, sessions@, u32::MAX - sessions@.len() + i),
                ({
                    let end = winddowns(start, sessions@.take(i as int), now);
                    &&& self@ == (ParkerModel { wound_down: end.wound, ..old(self)@ })
                    &&& injector@ == end.injector
                    &&& crate::injector::typed_views(typed@) == end.typed
                }),
            decreases sessions.len() - i,
        {
            let s = &sessions[i];
            let ghost before = winddowns(start, sessions@.take(i as int), now);
            proof {
                assert(sessions@.take(i + 1).drop_last() =~= sessions@.take(i as int));
                assert(sessions@.take(i + 1).last() == *s);
            }
            let barred: bool = injector.blocks_soft_winddown(s.session_id);
            if soft_eligible(s.state, s.in_flight, barred) {
                proof {
                    assert(injector@.episode_count(sessions@[i as int].session_id) < u32::MAX);
                }
                let (armed, text) = injector.begin_soft_winddown(s, Some(s.state), now);
                if armed {
                    self.wound_down.insert(s.session_id);
                }
                push_typed(&mut typed, s.session_id, text);
                proof {
                    lemma_after_winddown_episodes(before.injector, *s, now);
                }
            }
            i = i + 1;
        }
        proof {
            assert(sessions@.take(i as int) =~= sessions@);
        }
        typed
    }

    /// The allowance recovered: every session that was wound down and still works
    /// gets the all-clear, once. While a sweep is engaged it is held back until the
    /// sweep is done.
    pub fn winddown_allclear(
        &mut self,
        injector: &mut SamuraiInjector,
        sessions: &Vec<SessionSnapshot>,
        now: u128,
    ) -> (typed: Vec<(u32, String)>)
        requires
            old(self).wf(),
            old(injector).wf(),
        ensures
            if old(self)@.engaged {
                &&& final(self)@ == (ParkerModel { pending_allclear: true, ..old(self)@ })
                &&& final(injector)@ == old(injector)@
                &&& typed@.len() == 0
            } else {
                let end = allclears(
                    Winddowns {
                        wound: old(self)@.wound_down,
                        injector: old(injector)@,
                        typed: Seq::empty(),
                    },
                    sessions@,
                    now,
                );
                &&& final(self)@ == (ParkerModel { wound_down: Set::empty(), ..old(self)@ })
                &&& final(injector)@ == end.injector
                &&& crate::injector::typed_views(typed@) == end.typed
            },
            final(self).wf(),
            final(injector).wf(),
    {
        broadcast use vstd::std_specs::hash::group_hash_axioms;

        let mut typed: Vec<(u32, String)> = Vec::new();
        if self.engaged {
            self.pending_allclear = true;
            return typed;
        }
        let ghost start = Winddowns {
            wound: self@.wound_down,
            injector: injector@,
            typed: Seq::empty(),
        };
        let mut i: usize = 0;
        proof {
            assert(sessions@.take(0) =~= Seq::empty());
            assert(crate::injector::typed_views(typed@) =~= Seq::empty());
        }
        while i < sessions.len()
            invariant
                i <= sessions.len(),
                self.wf(),
                self@ == old(self)@,
                injector.wf(),
                start.wound == old(self)@.wound_down,
                ({
                    let end = allclears(start, sessions@.take(i as int), now);
                    &&& end.wound == start.wound
                    &&& injector@ == end.injector
                    &&& crate::injector::typed_views(typed@) == end.typed
                }),
            decreases sessions.len() - i,
        {
            let s = &sessions[i];
            proof {
                assert(sessions@.take(i + 1).drop_last() =~= sessions@.take(i as int));
                assert(sessions@.take(i + 1).last() == *s);
            }
            if self.wound_down.contains(&s.session_id) && s.state == SupervisorState::Working {
                let (_, text) = injector.begin_winddown_allclear(s, Some(s.state), now);
                push_typed(&mut typed, s.session_id, text);
            }
            i = i + 1;
        }
        proof {
            assert(sessions@.take(i as int) =~= sessions@);
        }
        self.wound_down.clear();
        typed
    }
}

/// Adds what was typed, if anything.
fn push_typed(typed: &mut Vec<(u32, String)>, id: u32, text: Option<String>)
    ensures
        crate::injector::typed_views(final(typed)@) == add_typed(
            crate::injector::typed_views(old(typed)@),
            id,
            opt_view(text),
        ),
{
    let ghost before = crate::injector::typed_views(typed@);
    if let Some(t) = text {
        typed.push((id, t));
        proof {
            assert(crate::injector::typed_views(typed@) =~= before.push((id, t@)));
        }
    }
}

/// With what was typed, if anything.
pub open spec fn add_typed(
    typed: Seq<(u32, Seq<char>)>,
    id: u32,
    text: Option<Seq<char>>,
) -> Seq<(u32, Seq<char>)> {
    match text {
        Some(t) => typed.push((id, t)),
        None => typed,
    }
}

/// How far a walk over the sessions has come: who is wound down, the controller, and
/// what was typed.
pub ghost struct Winddowns {
    pub wound: Set<u32>,
    pub injector: InjectorModel,
    pub typed: Seq<(u32, Seq<char>)>,
}

/// A soft crossing, session by session.
pub open spec fn winddowns(
    start: Winddowns,
    sessions: Seq<SessionSnapshot>,
    now: u128,
) -> Winddowns
    decreases sessions.len(),
{
    if sessions.len() == 0 {
        start
    } else {
        let w = winddowns(start, sessions.drop_last(), now);
        let s = sessions.last();
        let id = s.session_id;
        if s.state is Working && s.in_flight is None && !w.injector.bars_winddown(id) {
            Winddowns {
                wound: if w.injector.takes_winddown(id) {
                    w.wound.insert(id)
                } else {
                    w.wound
                },
                injector: w.injector.after_winddown(s, Some(s.state), now),
                typed: add_typed(
                    w.typed,
                    id,
                    w.injector.typed_on_winddown(s, Some(s.state), now),
                ),
            }
        } else {
            w
        }
    }
}

/// A recovery, session by session.
pub open spec fn allclears(
    start: Winddowns,
    sessions: Seq<SessionSnapshot>,
    now: u128,
) -> Winddowns
    decreases sessions.len(),
{
    if sessions.len() == 0 {
        start
    } else {
        let w = allclears(start, sessions.drop_last(), now);
        let s = sessions.last();
        if w.wound.contains(s.session_id) && s.state is Working {
            Winddowns {
                injector: w.injector.after_allclear(s, Some(s.state), now),
                typed: add_typed(
                    w.typed,
                    s.session_id,
                    w.injector.typed_on_allclear(s, Some(s.state), now),
                ),
                ..w
            }
        } else {
            w
        }
    }
}

/// None of the sessions has had more than `limit` episodes.
pub open spec fn episodes_within(
    injector: InjectorModel,
    sessions: Seq<SessionSnapshot>,
    limit: int,
) -> bool {
    forall|k: int|
        0 <= k < sessions.len() ==> injector.episode_count((#[trigger] sessions[k]).session_id)
            <= limit
}

proof fn lemma_after_winddown_episodes(injector: InjectorModel, s: SessionSnapshot, now: u128)
    requires
        injector.wf(),
        injector.episode_count(s.session_id) < u32::MAX,
    ensures
        forall|id: u32| #[trigger]
            injector.after_winddown(s, Some(s.state), now).episode_count(id)
                <= injector.episode_count(id) + 1,
{
    let id = s.session_id;
    lemma_put(injector.episodes, id, injector.next_episode(id));
    let after = injector.after_winddown(s, Some(s.state), now);
    assert forall|k: u32| #[trigger] after.episode_count(k) <= injector.episode_count(k) + 1 by {
        if k != id {
            assert(lookup(after.episodes, k) == lookup(injector.episodes, k));
        }
    }
}

proof fn lemma_contains_push(s: Seq<Run>, r: Run, x: Run)
    ensures
        s.push(r).contains(x) <==> s.contains(x) || x == r,
{
    let t = s.push(r);
    if s.contains(x) {
        let i = choose|i: int| 0 <= i < s.len() && s[i] == x;
        assert(t[i] == x);
    }
    if x == r {
        assert(t[s.len() as int] == x);
    }
    if t.contains(x) {
        let i = choose|i: int| 0 <= i < t.len() && t[i] == x;
        if i < s.len() {
            assert(s[i] == x);
        }
    }
}

proof fn lemma_to_set_push(s: Seq<Run>, r: Run)
    ensures
        s.push(r).to_set() == s.to_set().insert(r),
{
    assert forall|x: Run| s.push(r).to_set().contains(x) == s.to_set().insert(r).contains(x) by {
        lemma_contains_push(s, r, x);
    }
    assert(s.push(r).to_set() =~= s.to_set().insert(r));
}

// ---------------------------------------------------------------------------
// Timers
// ---------------------------------------------------------------------------

/// The timer that is armed for a run.
pub open spec fn armed_for(timers: Seq<ArmedTimer>, run: Run) -> Option<Seq<char>>
    decreases timers.len(),
{
    if timers.len() == 0 {
        None
    } else if timers[0].key@ == run {
        Some(timers[0].fire_at@)
    } else {
        armed_for(timers.drop_first(), run)
    }
}

/// The index of the timer that is armed for a run.
fn timer_for(timers: &Vec<ArmedTimer>, project: &str, epic: &str) -> (r: Option<usize>)
    ensures
        match r {
            Some(i) => i < timers.len() && armed_for(timers@, (project@, epic@)) == Some(
                timers@[i as int].fire_at@,
            ),
            None => armed_for(timers@, (project@, epic@)) is None,
        },
{
    let ghost run: Run = (project@, epic@);
    let mut i: usize = 0;
    proof {
        assert(timers@.skip(0) =~= timers@);
    }
    while i < timers.len()
        invariant
            i <= timers.len(),
            run == (project@, epic@),
            armed_for(timers@.skip(i as int), run) == armed_for(timers@, run),
        decreases timers.len() - i,
    {
        proof {
            assert(timers@.skip(i as int).drop_first() =~= timers@.skip(i + 1));
        }
        if timers[i].key.is(project, epic) {
            return Some(i);
        }
        i = i + 1;
    }
    None
}

/// The row says that a parked run has no reset time to resume at.
pub open spec fn is_no_reset_row(row: AuditRow, run: Run) -> bool {
    &&& row.is_about(run.0, run.1, AuditEventKind::Alert, 0, 0)
    &&& row.details matches AuditDetails::ParkNoResetTime { epic } && epic@ == run.1
}

/// The step is what becomes of a parked run's timer.
pub open spec fn is_timer_step(
    step: TimerStep,
    run: Run,
    resets_at: Option<Moment>,
    jitter: u32,
    existing: Option<Seq<char>>,
) -> bool {
    match resets_at {
        None => step matches TimerStep::Alert { row } && is_no_reset_row(row, run),
        Some(reset) => {
            let fire_at = fire_time(reset, jitter);
            if replaces(existing, fire_at) {
                step matches TimerStep::Arm { timer } && timer.key@ == run && timer.fire_at@
                    == rfc3339_text(fire_at.secs, fire_at.nanos) && timer.reason@
                    == PARK_TIMER_REASON@
            } else {
                step is Keep
            }
        },
    }
}

/// What becomes of a parked run's timer: armed some time after the reset, unless a
/// later one is armed already; alerted where no reset time is known.
pub fn arm_resume_timer(
    project: &str,
    epic: &str,
    resets_at: Option<Moment>,
    jitter: u32,
    timers: &Vec<ArmedTimer>,
) -> (step: TimerStep)
    requires
        usable(resets_at),
    ensures
        is_timer_step(
            step,
            (project@, epic@),
            resets_at,
            jitter,
            armed_for(timers@, (project@, epic@)),
        ),
        step matches TimerStep::Arm { timer } ==> {
            let fire_at = fire_time(resets_at->0, jitter);
            fire_at.four_digit_year() ==> named_moment(Some(timer.fire_at@)) == Some(fire_at)
                && !replaces(Some(timer.fire_at@), fire_at)
        },
        resets_at is Some && (forall|i: int|
            0 <= i < timers@.len() ==> !is_timer_of(#[trigger] timers@[i], project@, epic@)) ==> (
        step matches TimerStep::Arm { timer } && timer.key.project@ == project@ && timer.key.epic@
            == epic@),
{
    proof {
        law_only_its_own_timer_counts_for_a_run(timers@, project@, epic@);
    }
    match resets_at {
        None => TimerStep::Alert {
            row: AuditRow {
                project: owned(project),
                epic: owned(epic),
                event: AuditEventKind::Alert,
                generation: 0,
                session_id: 0,
                details: AuditDetails::ParkNoResetTime { epic: owned(epic) },
            },
        },
        Some(reset) => {
            let fire_at = fire_at_for(reset, jitter);
            let existing: Option<&str> = match timer_for(timers, project, epic) {
                Some(i) => Some(timers[i].fire_at.as_str()),
                None => None,
            };
            if !should_arm(existing, fire_at) {
                return TimerStep::Keep;
            }
            TimerStep::Arm {
                timer: ResumeTimer {
                    key: RunKey::new(project, epic),
                    fire_at: format_rfc3339(fire_at),
                    reason: owned(PARK_TIMER_REASON),
                },
            }
        },
    }
}

/// The row about an attempt to arm a parked run's timer.
pub fn timer_row(timer: &ResumeTimer, result: Result<(), String>) -> (row: AuditRow)
    ensures
        match result {
            Ok(_) => row.is_about(timer.key@.0, timer.key@.1, AuditEventKind::Park, 0, 0) && (
            row.details matches AuditDetails::TimerArmed { fire_at } && fire_at@
                == timer.fire_at@),
            Err(error) => is_arm_failed_row(row, timer.key@, error@),
        },
{
    match result {
        Ok(_) => AuditRow {
            project: timer.key.project.clone(),
            epic: timer.key.epic.clone(),
            event: AuditEventKind::Park,
            generation: 0,
            session_id: 0,
            details: AuditDetails::TimerArmed { fire_at: timer.fire_at.clone() },
        },
        Err(error) => arm_failed_row(&timer.key, error),
    }
}

/// The row says that a timer could not be armed.
pub open spec fn is_arm_failed_row(row: AuditRow, run: Run, error: Seq<char>) -> bool {
    &&& row.is_about(run.0, run.1, AuditEventKind::Alert, 0, 0)
    &&& row.details matches AuditDetails::ParkTimerArmFailed { epic, error: text } && epic@
        == run.1 && text@ == error
}

/// The alert that a timer could not be armed: without it the run never resumes.
pub fn arm_failed_row(key: &RunKey, error: String) -> (row: AuditRow)
    ensures
        is_arm_failed_row(row, key@, error@),
{
    AuditRow {
        project: key.project.clone(),
        epic: key.epic.clone(),
        event: AuditEventKind::Alert,
        generation: 0,
        session_id: 0,
        details: AuditDetails::ParkTimerArmFailed { epic: key.epic.clone(), error },
    }
}

// ---------------------------------------------------------------------------
// Releases
// ---------------------------------------------------------------------------

/// What is known of a run's configuration.
#[derive(Debug, Clone, Copy, PartialEq, Eq, Structural)]
pub enum RunStanding {
    /// There is nowhere to look it up.
    Unchecked,
    /// It was found.
    Found {
        /// Whether the run is active.
        active: bool,
    },
    /// There is none any more.
    Missing,
    /// It could not be read.
    Unreadable,
}

/// Whether a released run is still worth resuming: it is active, or nothing speaks
/// against it. A configuration that cannot be read is no evidence that the run
/// ended.
pub fn run_is_resumable(standing: RunStanding) -> (r: bool)
    ensures
        r == !(standing is Missing || standing == (RunStanding::Found { active: false })),
{
    match standing {
        RunStanding::Unchecked => true,
        RunStanding::Found { active } => active,
        RunStanding::Missing => false,
        RunStanding::Unreadable => true,
    }
}

/// A run whose park was released.
#[derive(Debug)]
pub struct ReleasedRun {
    /// The run.
    pub key: RunKey,
    /// What is known of its configuration.
    pub standing: RunStanding,
    /// Its jitter in seconds.
    pub jitter: u32,
}

/// A run has a session that is not at its end.
pub open spec fn is_live(sessions: Seq<SessionSnapshot>, run: Run) -> bool {
    exists|i: int|
        0 <= i < sessions.len() && (#[trigger] sessions[i]).run() == run
            && !sessions[i].state.terminal()
}

/// A released run is resumed: it has no live session, it is worth it, and no timer
/// is armed for it.
pub open spec fn resumes(
    released: ReleasedRun,
    sessions: Seq<SessionSnapshot>,
    timers: Seq<ArmedTimer>,
) -> bool {
    &&& !is_live(sessions, released.key@)
    &&& !(released.standing is Missing || released.standing == (RunStanding::Found {
        active: false,
    }))
    &&& armed_for(timers, released.key@) is None
}

/// How many of the offsets are at or past `from`.
pub open spec fn count_from(taken: Seq<int>, from: int) -> nat
    decreases taken.len(),
{
    if taken.len() == 0 {
        0
    } else {
        count_from(taken.drop_last(), from) + if taken.last() >= from {
            1nat
        } else {
            0nat
        }
    }
}

/// An offset that is taken is one fewer to come.
pub proof fn lemma_count_from(taken: Seq<int>, from: int)
    ensures
        count_from(taken, from) <= taken.len(),
        count_from(taken, from + 1) <= count_from(taken, from),
        taken.contains(from) ==> count_from(taken, from + 1) < count_from(taken, from),
    decreases taken.len(),
{
    if taken.len() > 0 {
        lemma_count_from(taken.drop_last(), from);
        if taken.contains(from) && taken.last() != from {
            let i = choose|i: int| 0 <= i < taken.len() && taken[i] == from;
            assert(taken.drop_last()[i] == from);
        }
    }
}

/// The first offset at or past `from` that is not taken.
pub open spec fn free_offset(taken: Seq<int>, from: int) -> int
    decreases count_from(taken, from),
{
    if taken.contains(from) {
        proof {
            lemma_count_from(taken, from);
        }
        free_offset(taken, from + 1)
    } else {
        from
    }
}

/// The first free offset is free, and every one before it is taken.
pub proof fn lemma_free_offset(taken: Seq<int>, from: int)
    ensures
        free_offset(taken, from) >= from,
        !taken.contains(free_offset(taken, from)),
        forall|x: int| from <= x < free_offset(taken, from) ==> taken.contains(x),
        free_offset(taken, from) <= from + count_from(taken, from),
    decreases count_from(taken, from),
{
    lemma_count_from(taken, from);
    if taken.contains(from) {
        lemma_free_offset(taken, from + 1);
    }
}

/// The runs that are resumed, in order, each with its offset in seconds: its own
/// jitter, moved on where another run has it already.
pub open spec fn resumed(
    released: Seq<ReleasedRun>,
    sessions: Seq<SessionSnapshot>,
    timers: Seq<ArmedTimer>,
) -> Seq<(Run, int)>
    decreases released.len(),
{
    if released.len() == 0 {
        Seq::empty()
    } else {
        let init = resumed(released.drop_last(), sessions, timers);
        let last = released.last();
        if resumes(last, sessions, timers) {
            init.push((last.key@, free_offset(offsets(init), last.jitter as int)))
        } else {
            init
        }
    }
}

/// The offsets alone.
pub open spec fn offsets(plan: Seq<(Run, int)>) -> Seq<int> {
    plan.map_values(|e: (Run, int)| e.1)
}

/// The timer resumes a run so many seconds from `now`.
pub open spec fn is_resume_timer(
    timer: ResumeTimer,
    entry: (Run, int),
    reason: Seq<char>,
    now: Moment,
) -> bool {
    let at = now.plus(entry.1);
    &&& timer.key@ == entry.0
    &&& timer.fire_at@ == rfc3339_text(at.secs, at.nanos)
    &&& timer.reason@ == resume_trigger_text(reason)
}

/// The timers are those of the plan, in order.
pub open spec fn are_resume_timers(
    timers: Seq<ResumeTimer>,
    plan: Seq<(Run, int)>,
    reason: Seq<char>,
    now: Moment,
) -> bool {
    &&& timers.len() == plan.len()
    &&& forall|i: int|
        #![trigger timers[i]]
        #![trigger plan[i]]
        0 <= i < plan.len() ==> is_resume_timer(timers[i], plan[i], reason, now)
}

/// No two runs are resumed at the same offset, and none before its own jitter.
pub proof fn law_resumes_are_staggered(
    released: Seq<ReleasedRun>,
    sessions: Seq<SessionSnapshot>,
    timers: Seq<ArmedTimer>,
)
    ensures
        ({
            let plan = resumed(released, sessions, timers);
            &&& plan.len() <= released.len()
            &&& forall|i: int, j: int|
                0 <= i < j < plan.len() ==> (#[trigger] plan[i]).1 != (#[trigger] plan[j]).1
            &&& forall|i: int|
                0 <= i < plan.len() ==> 0 <= (#[trigger] plan[i]).1 <= u32::MAX + released.len()
            &&& forall|i: int|
                0 <= i < plan.len() ==> exists|k: int|
                    0 <= k < released.len() && (#[trigger] released[k]).key@ == (
                    #[trigger] plan[i]).0 && released[k].jitter <= plan[i].1
        }),
    decreases released.len(),
{
    if released.len() > 0 {
        let init = resumed(released.drop_last(), sessions, timers);
        let last = released.last();
        let plan = resumed(released, sessions, timers);
        law_resumes_are_staggered(released.drop_last(), sessions, timers);
        lemma_free_offset(offsets(init), last.jitter as int);
        lemma_count_from(offsets(init), last.jitter as int);
        assert forall|i: int, j: int| 0 <= i < j < plan.len() implies (#[trigger] plan[i]).1 != (
        #[trigger] plan[j]).1 by {
            if j < init.len() {
                assert(plan[i] == init[i] && plan[j] == init[j]);
            } else {
                assert(plan[i] == init[i]);
                assert(offsets(init)[i] == init[i].1);
            }
        }
        assert forall|i: int| 0 <= i < plan.len() implies 0 <= (#[trigger] plan[i]).1 <= u32::MAX
            + released.len() by {
            if i < init.len() {
                assert(plan[i] == init[i]);
            }
        }
        assert forall|i: int| 0 <= i < plan.len() implies exists|k: int|
            0 <= k < released.len() && (#[trigger] released[k]).key@ == (#[trigger] plan[i]).0
                && released[k].jitter <= plan[i].1 by {
            if i < init.len() {
                assert(plan[i] == init[i]);
                let k = choose|k: int|
                    0 <= k < released.drop_last().len() && (
                    #[trigger] released.drop_last()[k]).key@ == init[i].0
                        && released.drop_last()[k].jitter <= init[i].1;
                assert(released[k] == released.drop_last()[k]);
            } else {
                assert(released[released.len() - 1] == last);
            }
        }
    }
}

/// The offsets as integers.
pub open spec fn as_ints(offsets: Seq<u64>) -> Seq<int> {
    offsets.map_values(|o: u64| o as int)
}

/// The first offset at or past `from` that is not taken.
fn first_free(taken: &Vec<u64>, from: u32) -> (offset: u64)
    requires
        taken.len() <= u32::MAX,
    ensures
        offset == free_offset(as_ints(taken@), from as int),
        offset <= from + taken.len(),
{
    let ghost all = as_ints(taken@);
    proof {
        lemma_count_from(all, from as int);
    }
    let mut offset: u64 = from as u64;
    loop
        invariant
            all == as_ints(taken@),
            taken.len() <= u32::MAX,
            free_offset(all, offset as int) == free_offset(all, from as int),
            from <= offset,
            offset - from + count_from(all, offset as int) <= all.len(),
        decreases count_from(all, offset as int),
    {
        proof {
            lemma_count_from(all, offset as int);
        }
        if !is_taken(taken, offset) {
            return offset;
        }
        offset = offset + 1;
    }
}

/// Whether an offset is taken.
fn is_taken(taken: &Vec<u64>, offset: u64) -> (r: bool)
    ensures
        r == as_ints(taken@).contains(offset as int),
{
    let ghost all = as_ints(taken@);
    let mut i: usize = 0;
    while i < taken.len()
        invariant
            i <= taken.len(),
            all == as_ints(taken@),
            forall|j: int| 0 <= j < i ==> #[trigger] all[j] != offset,
        decreases taken.len() - i,
    {
        if taken[i] == offset {
            proof {
                assert(all[i as int] == offset);
            }
            return true;
        }
        i = i + 1;
    }
    false
}

/// Whether a run has a session that is not at its end.
fn has_live_session(sessions: &Vec<SessionSnapshot>, project: &str, epic: &str) -> (r: bool)
    ensures
        r == is_live(sessions@, (project@, epic@)),
{
    let mut i: usize = 0;
    while i < sessions.len()
        invariant
            i <= sessions.len(),
            forall|j: int|
                0 <= j < i ==> !((#[trigger] sessions@[j]).run() == (project@, epic@)
                    && !sessions@[j].state.terminal()),
        decreases sessions.len() - i,
    {
        let s = &sessions[i];
        if s.is_of(project, epic) && !s.state.is_terminal() {
            proof {
                assert(sessions@[i as int].run() == (project@, epic@));
            }
            return true;
        }
        i = i + 1;
    }
    false
}

/// Every run of the plan resumes at a moment that `chrono` can represent.
pub open spec fn within_calendar(plan: Seq<(Run, int)>, now: Moment) -> bool {
    forall|i: int| 0 <= i < plan.len() ==> now.secs + (#[trigger] plan[i]).1 <= LAST_SECOND
}

/// What is planned at `now`: the timers of the plan, or nothing where a run would resume
/// past the end of the calendar.
pub open spec fn is_planned_at(
    timers: Option<Vec<ResumeTimer>>,
    plan: Seq<(Run, int)>,
    reason: Seq<char>,
    now: Moment,
) -> bool {
    match timers {
        Some(all) => within_calendar(plan, now) && are_resume_timers(all@, plan, reason, now),
        None => !within_calendar(plan, now),
    }
}

/// The first runs are planned in the same way whatever runs follow.
proof fn lemma_resumed_prefix(
    released: Seq<ReleasedRun>,
    sessions: Seq<SessionSnapshot>,
    timers: Seq<ArmedTimer>,
    n: int,
)
    requires
        0 <= n <= released.len(),
    ensures
        ({
            let first = resumed(released.take(n), sessions, timers);
            let all = resumed(released, sessions, timers);
            first.len() <= all.len() && all.take(first.len() as int) == first
        }),
    decreases released.len(),
{
    let first = resumed(released.take(n), sessions, timers);
    let all = resumed(released, sessions, timers);
    if n == released.len() {
        assert(released.take(n) =~= released);
        assert(all.take(first.len() as int) =~= first);
    } else {
        let init = released.drop_last();
        lemma_resumed_prefix(init, sessions, timers, n);
        assert(init.take(n) =~= released.take(n));
        let before = resumed(init, sessions, timers);
        assert(all.take(first.len() as int) =~= before.take(first.len() as int));
    }
}

/// No run is moved on by more seconds than there are runs.
proof fn lemma_resumed_within(
    released: Seq<ReleasedRun>,
    sessions: Seq<SessionSnapshot>,
    timers: Seq<ArmedTimer>,
)
    ensures
        resumed(released, sessions, timers).len() <= released.len(),
        forall|i: int|
            0 <= i < resumed(released, sessions, timers).len() ==> (#[trigger] resumed(
                released,
                sessions,
                timers,
            )[i]).1 <= u32::MAX + released.len(),
    decreases released.len(),
{
    if released.len() > 0 {
        let init = resumed(released.drop_last(), sessions, timers);
        lemma_resumed_within(released.drop_last(), sessions, timers);
        lemma_free_offset(offsets(init), released.last().jitter as int);
        lemma_count_from(offsets(init), released.last().jitter as int);
    }
}

/// The timers that resume released runs from `now` on. A run that is live, that ended or
/// that has a timer is left alone; no two resume in the same second. Nothing where a run
/// would resume past the end of the calendar.
pub fn plan_resumes_at(
    released: &Vec<ReleasedRun>,
    sessions: &Vec<SessionSnapshot>,
    timers: &Vec<ArmedTimer>,
    reason: &str,
    now: Moment,
) -> (plan: Option<Vec<ResumeTimer>>)
    requires
        now.valid(),
        released.len() <= u32::MAX,
    ensures
        is_planned_at(plan, resumed(released@, sessions@, timers@), reason@, now),
{
    let trigger = resume_trigger_for(reason);
    let mut plan: Vec<ResumeTimer> = Vec::new();
    let mut taken: Vec<u64> = Vec::new();
    let mut i: usize = 0;
    proof {
        assert(released@.take(0) =~= Seq::empty());
        assert(as_ints(taken@) =~= offsets(
            resumed(released@.take(0), sessions@, timers@),
        ));
    }
    while i < released.len()
        invariant
            i <= released.len(),
            now.valid(),
            released.len() <= u32::MAX,
            within_calendar(resumed(released@.take(i as int), sessions@, timers@), now),
            trigger@ == resume_trigger_text(reason@),
            taken.len() <= i,
            as_ints(taken@) == offsets(
                resumed(released@.take(i as int), sessions@, timers@),
            ),
            are_resume_timers(
                plan@,
                resumed(released@.take(i as int), sessions@, timers@),
                reason@,
                now,
            ),
        decreases released.len() - i,
    {
        let r = &released[i];
        let ghost before = resumed(released@.take(i as int), sessions@, timers@);
        proof {
            assert(released@.take(i + 1).drop_last() =~= released@.take(i as int));
            assert(released@.take(i + 1).last() == *r);
        }
        let project = r.key.project.as_str();
        let epic = r.key.epic.as_str();
        if !has_live_session(sessions, project, epic) && run_is_resumable(r.standing)
            && timer_for(timers, project, epic).is_none() {
            let offset: u64 = first_free(&taken, r.jitter);
            let ghost entry = (r.key@, offset as int);
            proof {
                assert(resumed(released@.take(i + 1), sessions@, timers@) == before.push(entry));
            }
            if offset as i64 > LAST_SECOND - now.secs {
                proof {
                    lemma_resumed_prefix(released@, sessions@, timers@, i + 1);
                    let all = resumed(released@, sessions@, timers@);
                    assert(all.take(before.len() as int + 1)[before.len() as int] == entry);
                    assert(all[before.len() as int] == entry);
                }
                return None;
            }
            let at = add_seconds(now, offset as i64);
            proof {
                lemma_plus_valid(now, offset as int);
            }
            let timer = ResumeTimer {
                key: r.key.copy(),
                fire_at: format_rfc3339(at),
                reason: owned(trigger),
            };
            let ghost taken_before = taken@;
            taken.push(offset);
            let ghost plan_before = plan@;
            plan.push(timer);
            proof {
                assert(as_ints(taken@) =~= as_ints(taken_before).push(offset as int));
                assert(offsets(before.push(entry)) =~= offsets(before).push(offset as int));
                assert forall|k: int|
                    #![trigger plan@[k]]
                    #![trigger before.push(entry)[k]]
                    0 <= k < before.push(entry).len() implies is_resume_timer(
                    plan@[k],
                    before.push(entry)[k],
                    reason@,
                    now,
                ) by {
                    if k < before.len() {
                        assert(plan@[k] == plan_before[k]);
                        assert(before.push(entry)[k] == before[k]);
                    }
                }
            }
        }
        i = i + 1;
    }
    proof {
        assert(released@.take(i as int) =~= released@);
    }
    Some(plan)
}

/// The timers that resume released runs from `now` on. A run that is live, that
/// ended or that has a timer is left alone; no two resume in the same second.
pub fn plan_resumes(
    released: &Vec<ReleasedRun>,
    sessions: &Vec<SessionSnapshot>,
    timers: &Vec<ArmedTimer>,
    reason: &str,
    now: Moment,
) -> (plan: Vec<ResumeTimer>)
    requires
        now.valid(),
        released.len() <= u32::MAX,
        now.secs + u32::MAX + released.len() <= LAST_SECOND,
    ensures
        are_resume_timers(plan@, resumed(released@, sessions@, timers@), reason@, now),
{
    proof {
        lemma_resumed_within(released@, sessions@, timers@);
    }
    match plan_resumes_at(released, sessions, timers, reason, now) {
        Some(plan) => plan,
        None => Vec::new(),
    }
}

/// [`plan_resumes_at`] the present moment. The clock decides only where there is a run to
/// resume.
pub fn plan_resumes_now(
    released: &Vec<ReleasedRun>,
    sessions: &Vec<SessionSnapshot>,
    timers: &Vec<ArmedTimer>,
    reason: &str,
) -> (plan: Option<Vec<ResumeTimer>>)
    requires
        released.len() <= u32::MAX,
    ensures
        exists|now: Moment|
            now.valid() && 0 <= now.secs && #[trigger] is_planned_at(
                plan,
                resumed(released@, sessions@, timers@),
                reason@,
                now,
            ),
        resumed(released@, sessions@, timers@).len() == 0 ==> plan is Some && plan->0@.len() == 0,
{
    let now = utc_now();
    plan_resumes_at(released, sessions, timers, reason, now)
}

/// The runs that are parked for another reason.
pub open spec fn parked_otherwise(reason: Seq<char>) -> spec_fn((Run, Seq<char>)) -> bool {
    |e: (Run, Seq<char>)| e.1 != reason
}

/// The runs that are parked for a reason.
pub open spec fn parked_for(reasons: Seq<(Run, Seq<char>)>, reason: Seq<char>, run: Run) -> bool {
    lookup(reasons, run) == Some(reason)
}

impl SamuraiParker {
    /// An outside condition is over: takes the runs that were parked for it, in
    /// order. While its sweep still runs, the release is remembered too, for the runs
    /// are recorded when the sweep is done.
    pub fn release_external_park(&mut self, reason: &str) -> (released: Vec<RunKey>)
        requires
            old(self).wf(),
        ensures
            ascending(run_views(released@)),
            forall|run: Run| #[trigger]
                run_views(released@).contains(run) <==> parked_for(
                    old(self)@.park_reasons,
                    reason@,
                    run,
                ),
            final(self)@ == old(self)@.after_release(reason@),
            final(self).wf(),
    {
        let own: bool = match &self.external_reason {
            Some(r) => same(r.as_str(), reason),
            None => false,
        };
        if own {
            self.pending_release = Some(owned(reason));
        }
        let ghost all = self.park_reasons@;
        let mut kept: RunMap<String> = RunMap::new();
        let mut taken: Vec<RunKey> = Vec::new();
        let mut i: usize = 0;
        proof {
            reveal(Seq::filter);
            assert(all.take(0) =~= Seq::empty());
        }
        while i < self.park_reasons.len()
            invariant
                i <= self.park_reasons@.len(),
                all == self.park_reasons@,
                distinct_keys(all),
                kept.wf(),
                kept@ == all.take(i as int).filter(parked_otherwise(reason@)),
                forall|r: Run| #[trigger]
                    run_views(taken@).contains(r) <==> exists|j: int|
                        0 <= j < i && (#[trigger] all[j]) == (r, reason@),
            decreases self.park_reasons@.len() - i,
        {
            let key = self.park_reasons.key_at(i);
            let why = self.park_reasons.value_at(i);
            let ghost before = run_views(taken@);
            proof {
                reveal(Seq::filter);
                assert(all.take(i + 1).drop_last() =~= all.take(i as int));
                assert(all.take(i + 1).last() == all[i as int]);
                assert(all[i as int] == (key@, why@));
                crate::table::lemma_prefix_lacks(all, i as int, parked_otherwise(reason@));
            }
            let ghost is_for: bool = why@ == reason@;
            if same(why.as_str(), reason) {
                taken.push(key.copy());
                proof {
                    assert(run_views(taken@) =~= before.push(key@));
                }
            } else {
                kept.insert(key.copy(), why.clone());
            }
            proof {
                assert forall|r: Run| #[trigger]
                    run_views(taken@).contains(r) <==> exists|j: int|
                        0 <= j < i + 1 && (#[trigger] all[j]) == (r, reason@) by {
                    lemma_contains_push(before, key@, r);
                    if before.contains(r) {
                        let j = choose|j: int| 0 <= j < i && (#[trigger] all[j]) == (r, reason@);
                        assert(all[j] == (r, reason@));
                    }
                    if exists|j: int| 0 <= j < i + 1 && (#[trigger] all[j]) == (r, reason@) {
                        let j = choose|j: int|
                            0 <= j < i + 1 && (#[trigger] all[j]) == (r, reason@);
                        if j < i {
                            assert(before.contains(r));
                        }
                    }
                    if is_for && r == key@ {
                        assert(all[i as int] == (r, reason@));
                    }
                }
            }
            i = i + 1;
        }
        self.park_reasons = kept;
        let released = sort_runs(&taken);
        proof {
            assert(all.take(i as int) =~= all);
            assert forall|run: Run| #[trigger]
                run_views(released@).contains(run) <==> parked_for(all, reason@, run) by {
                lemma_lookup(all, run);
                assert(run_views(released@).contains(run) <==> run_views(taken@).contains(run));
                if run_views(taken@).contains(run) {
                    let j = choose|j: int|
                        0 <= j < all.len() && (#[trigger] all[j]) == (run, reason@);
                    lemma_lookup_at(all, j);
                }
                if parked_for(all, reason@, run) {
                    let j = choose|j: int|
                        0 <= j < all.len() && (#[trigger] all[j]).0 == run && lookup(all, run)
                            == Some(all[j].1);
                    assert(all[j] == (run, reason@));
                }
            }
        }
        released
    }
}

} // verus!
