use chrono::DateTime;
use samurai::audit::{AuditDetails, AuditEventKind, AuditRow};
use samurai::clock::{Moment, LAST_SECOND};
use samurai::injector::{
    session_state, validated_state, SamuraiInjector, ValidatedHandoff, ValidationStep,
};
use samurai::ladder::PendingKind;
use samurai::parker::{
    arm_failed_row, arm_resume_timer, arms_over, blocks_completion, candidate_order, fire_at_for,
    later_known, merge_resets_at, on_allowance_event, percent_of, plan_resumes, plan_resumes_at,
    plan_resumes_now,
    resume_trigger_for, run_is_resumable, should_arm, soft_eligible, timer_row, AllowanceEvent,
    ArmedTimer, ParkEnd, ParkerTask, ReleasedRun, ResumeTimer, RunStanding, SamuraiParker,
    SweepStep, TimerStep, GH_AUTH_LOST, GH_AUTH_RESTORED, PARK_TIMER_REASON,
};
use samurai::pending::{idle_session_id, LadderTimes};
use samurai::runs::RunKey;
use samurai::session::{AgentEvent, InstructionKind, SessionSnapshot, SupervisorState};
use samurai::validation::{validate_handoff, wip_head_sha, HandoffProbe};
use std::time::Duration;
use SupervisorState::{
    Dead, HandoffRequested, HandoffWritten, Killed, ParkRequested, Parked, Working,
};

const RESETS_AT: &str = "2030-01-01T00:00:00Z";
const TIMEOUT: Duration = Duration::from_secs(180);
const MAX_TURN_WAIT: Duration = Duration::from_secs(1800);
const ACCOUNT_PROJECT: &str = "account";

/// A percentage as a number that orders as the percentage does.
fn pct(value: f64) -> u64 {
    assert!(value >= 0.0);
    value.to_bits()
}

fn moment(text: &str) -> Moment {
    let parsed = DateTime::parse_from_rfc3339(text).unwrap();
    Moment { secs: parsed.timestamp(), nanos: parsed.timestamp_subsec_nanos() }
}

/// A jitter of each run; `#180` and `#532` share theirs.
fn jitter_secs(epic: &str) -> u32 {
    match epic {
        "#37" => 41,
        "#38" => 97,
        "#180" | "#532" => 63,
        _ => epic.bytes().map(u32::from).sum::<u32>() % 120,
    }
}

// --- decisions ---

#[test]
fn test_candidate_order_highest_context_first_unknown_last() {
    let mut candidates = [
        (4, None),
        (2, Some(pct(80.0))),
        (3, Some(pct(80.0))),
        (1, Some(pct(30.0))),
        (5, None),
    ];
    candidates.sort_by(candidate_order);
    let ids: Vec<u32> = candidates.iter().map(|(id, _)| *id).collect();
    // Highest % first; equal % by id; unknown % last, by id.
    assert_eq!(ids, vec![2, 3, 1, 4, 5]);
}

#[test]
fn test_soft_eligibility_table() {
    // (state, in_flight, has_pending, expected)
    let table = [
        (Working, None, false, true),
        (Working, None, true, false), // already instructed
        (Working, Some(InstructionKind::Handoff), false, false),
        (HandoffRequested, Some(InstructionKind::Handoff), false, false),
        (HandoffWritten, None, false, false),
        (ParkRequested, Some(InstructionKind::Park), false, false),
        (Parked, None, false, false),
        (Killed, None, false, false),
        (Dead, None, false, false),
    ];
    for (state, in_flight, has_pending, expected) in table {
        assert_eq!(
            soft_eligible(state, in_flight, has_pending),
            expected,
            "{state:?} in_flight={in_flight:?} pending={has_pending}"
        );
    }
}

#[test]
fn test_blocks_completion_table() {
    // (state, has_pending, failed, expected)
    let table = [
        (Working, false, false, true),           // still to park
        (Working, true, false, true),            // wind-down pending; still to park
        (Working, false, true, false),           // skipped
        (ParkRequested, true, false, true),      // park in flight
        (ParkRequested, false, true, false),     // alerted: human attention
        (ParkRequested, false, false, false),    // abandoned: never wait
        (HandoffRequested, true, false, true),   // completing handoff: absorbed later
        (HandoffRequested, false, false, false), // alerted handoff: never wait
        (HandoffWritten, false, false, true),    // replication in flight
        (Killed, false, false, false),
        (Parked, false, false, false),
        (Dead, false, false, false),
    ];
    for (state, has_pending, failed, expected) in table {
        assert_eq!(
            blocks_completion(state, has_pending, failed),
            expected,
            "{state:?} pending={has_pending} failed={failed}"
        );
    }
}

#[test]
fn test_merge_resets_at_keeps_the_later_known_reset() {
    let t1 = "2030-01-01T00:00:00Z";
    let t2 = "2030-01-03T00:00:00Z";
    assert_eq!(merge_resets_at(None, Some(t1)), Some(moment(t1)));
    // Later event wins; an earlier one never regresses the sweep's reset.
    assert_eq!(merge_resets_at(Some(moment(t1)), Some(t2)), Some(moment(t2)));
    assert_eq!(merge_resets_at(Some(moment(t2)), Some(t1)), Some(moment(t2)));
    // None / unparseable never erase a known reset.
    assert_eq!(merge_resets_at(Some(moment(t1)), None), Some(moment(t1)));
    assert_eq!(merge_resets_at(Some(moment(t1)), Some("not-a-time")), Some(moment(t1)));
    assert_eq!(merge_resets_at(None, None), None);
}

#[test]
fn test_an_offset_names_the_same_moment() {
    assert_eq!(
        merge_resets_at(None, Some("2030-01-01T02:30:00.25+02:30")),
        Some(Moment { secs: moment(RESETS_AT).secs, nanos: 250_000_000 })
    );
    assert_eq!(later_known(None, Some(moment(RESETS_AT))), Some(moment(RESETS_AT)));
    assert_eq!(later_known(Some(moment(RESETS_AT)), None), Some(moment(RESETS_AT)));
}

#[test]
fn test_fire_at_adds_five_minutes_plus_epic_jitter() {
    let resets = moment(RESETS_AT);
    let fire = fire_at_for(resets, jitter_secs("#37"));
    let offset = fire.secs - resets.secs;
    assert_eq!(offset, 300 + i64::from(jitter_secs("#37")));
    // Deterministic per epic, distinct between neighbors.
    assert_eq!(fire, fire_at_for(resets, jitter_secs("#37")));
    assert_ne!(
        fire_at_for(resets, jitter_secs("#37")),
        fire_at_for(resets, jitter_secs("#38"))
    );
}

#[test]
fn test_should_arm_keeps_a_later_existing_timer() {
    let new = moment("2030-01-01T00:05:00Z");
    assert!(should_arm(None, new)); // nothing armed
    assert!(should_arm(Some("2030-01-01T00:00:00Z"), new)); // earlier → replace
    assert!(!should_arm(Some("2030-01-02T00:00:00Z"), new)); // later → keep
    assert!(!should_arm(Some("2030-01-01T00:05:00Z"), new)); // equal → keep
    assert!(should_arm(Some("garbage"), new)); // unparseable → replace
    assert!(arms_over(None, new));
    assert!(!arms_over(Some(new), new));
}

#[test]
fn test_resume_trigger_names_what_was_fixed_not_what_broke() {
    assert_eq!(resume_trigger_for(GH_AUTH_LOST), GH_AUTH_RESTORED);
    // No other external condition releases yet: a future one must land its own arm
    // rather than silently claim an auth restore.
    assert_eq!(resume_trigger_for("some_future_condition"), "some_future_condition");
}

#[test]
fn test_each_event_has_its_task() {
    assert_eq!(on_allowance_event(&AllowanceEvent::SoftCrossed), ParkerTask::WindDown);
    assert_eq!(
        on_allowance_event(&AllowanceEvent::HardCrossed { resets_at: None }),
        ParkerTask::EngageHard
    );
    assert_eq!(on_allowance_event(&AllowanceEvent::SoftRecovered), ParkerTask::AllClear);
    assert_eq!(on_allowance_event(&AllowanceEvent::NoGoverningWindow), ParkerTask::Nothing);
}

#[test]
fn test_readings_and_standings() {
    assert_eq!(percent_of(&vec![(1, 7), (2, 8)], 2), Some(8));
    assert_eq!(percent_of(&vec![(1, 7)], 2), None);
    assert!(run_is_resumable(RunStanding::Unchecked));
    assert!(run_is_resumable(RunStanding::Unreadable));
    assert!(run_is_resumable(RunStanding::Found { active: true }));
    assert!(!run_is_resumable(RunStanding::Found { active: false }));
    assert!(!run_is_resumable(RunStanding::Missing));
}

// --- the sweep, with its sessions, its injector and its schedule ---

fn copy_of(session: &SessionSnapshot) -> SessionSnapshot {
    SessionSnapshot {
        session_id: session.session_id,
        project: session.project.clone(),
        epic: session.epic.clone(),
        generation: session.generation,
        state: session.state,
        previous_state: session.previous_state,
        in_flight: session.in_flight,
    }
}

fn stop_event(session_id: u32) -> AgentEvent {
    AgentEvent::SessionEnded { session_id, reason: "stop".to_string() }
}

fn hard_event(resets_at: Option<&str>) -> AllowanceEvent {
    AllowanceEvent::HardCrossed { resets_at: resets_at.map(str::to_string) }
}

struct Yard {
    parker: SamuraiParker,
    injector: SamuraiInjector,
    sessions: Vec<SessionSnapshot>,
    percents: Vec<(u32, u64)>,
    timers: Vec<(ArmedTimer, String)>,
    archived: Vec<String>,
    torn_down: Vec<u32>,
    rows: Vec<AuditRow>,
    now: u128,
    wall: Moment,
    tick_in_validation: bool,
}

impl Yard {
    fn new() -> Yard {
        Yard {
            parker: SamuraiParker::new(),
            injector: SamuraiInjector::new(),
            sessions: Vec::new(),
            percents: Vec::new(),
            timers: Vec::new(),
            archived: Vec::new(),
            torn_down: Vec::new(),
            rows: Vec::new(),
            now: 1_000_000_000,
            wall: moment("2029-06-01T12:00:00Z"),
            tick_in_validation: false,
        }
    }

    fn register(&mut self, id: u32, project: &str, epic: &str, generation: u32) {
        self.sessions.push(SessionSnapshot {
            session_id: id,
            project: project.to_string(),
            epic: epic.to_string(),
            generation,
            state: Working,
            previous_state: None,
            in_flight: None,
        });
    }

    fn transition(&mut self, id: u32, state: SupervisorState) -> Option<SessionSnapshot> {
        let session = self.sessions.iter_mut().find(|s| s.session_id == id)?;
        session.previous_state = Some(session.state);
        session.state = state;
        session.in_flight = match state {
            HandoffRequested => Some(InstructionKind::Handoff),
            ParkRequested => Some(InstructionKind::Park),
            _ => None,
        };
        Some(copy_of(session))
    }

    fn state(&self, id: u32) -> Option<SupervisorState> {
        session_state(&self.sessions, id)
    }

    fn event(&mut self, event: &AllowanceEvent) {
        match on_allowance_event(event) {
            ParkerTask::WindDown => {
                self.parker.soft_winddown(&mut self.injector, &self.sessions, self.now);
            }
            ParkerTask::EngageHard => {
                let resets_at = match event {
                    AllowanceEvent::HardCrossed { resets_at } => resets_at.as_deref(),
                    _ => None,
                };
                self.parker.engage_hard(resets_at);
                self.sweep();
            }
            ParkerTask::AllClear => {
                self.parker.winddown_allclear(&mut self.injector, &self.sessions, self.now);
            }
            ParkerTask::Nothing => {}
        }
    }

    fn external_park(&mut self, reason: &str) {
        let account = RunKey::new(ACCOUNT_PROJECT, "account");
        let rows = self.parker.engage_external_park(reason, &self.sessions, &account);
        self.rows.extend(rows);
        self.sweep();
    }

    fn release(&mut self, reason: &str) -> usize {
        let released = self.parker.release_external_park(reason);
        self.resume(released, reason)
    }

    fn armed(&self) -> Vec<ArmedTimer> {
        self.timers
            .iter()
            .map(|(t, _)| ArmedTimer {
                key: RunKey::new(&t.key.project, &t.key.epic),
                fire_at: t.fire_at.clone(),
            })
            .collect()
    }

    fn arm(&mut self, timer: ResumeTimer) {
        self.timers
            .retain(|(t, _)| t.key.project != timer.key.project || t.key.epic != timer.key.epic);
        self.timers.push((ArmedTimer { key: timer.key, fire_at: timer.fire_at }, timer.reason));
    }

    fn resume(&mut self, released: Vec<RunKey>, reason: &str) -> usize {
        let runs: Vec<ReleasedRun> = released
            .into_iter()
            .map(|key| ReleasedRun {
                standing: RunStanding::Found { active: !self.archived.contains(&key.epic) },
                jitter: jitter_secs(&key.epic),
                key,
            })
            .collect();
        let plan = plan_resumes(&runs, &self.sessions, &self.armed(), reason, self.wall);
        let count = plan.len();
        for timer in plan {
            self.arm(timer);
        }
        count
    }

    fn arm_park(&mut self, project: &str, epic: &str, resets_at: Option<Moment>) {
        match arm_resume_timer(project, epic, resets_at, jitter_secs(epic), &self.armed()) {
            TimerStep::Alert { row } => self.rows.push(row),
            TimerStep::Keep => {}
            TimerStep::Arm { timer } => {
                self.rows.push(timer_row(&timer, Ok(())));
                self.arm(timer);
            }
        }
    }

    fn sweep(&mut self) {
        let step = self.parker.advance(&self.injector, &self.sessions, &self.percents);
        let SweepStep::Park { candidates } = step else {
            return;
        };
        for (id, _) in candidates {
            if let Some(session) = self.transition(id, ParkRequested) {
                self.injector.begin_park(&session, Some(ParkRequested), self.now);
                return;
            }
        }
        let Some(outcome) = self.parker.complete_sweep(&self.injector, &self.sessions) else {
            return;
        };
        if outcome.arm_timers {
            for run in &outcome.runs {
                self.arm_park(&run.project, &run.epic, outcome.resets_at);
            }
        }
        self.parker.disengage();
        if outcome.allclear {
            self.parker.winddown_allclear(&mut self.injector, &self.sessions, self.now);
        }
        if let Some(reason) = outcome.release {
            self.release(&reason);
        }
    }

    fn hook(&mut self, event: &AgentEvent) {
        let state = match idle_session_id(event) {
            Some(id) => self.state(id),
            None => None,
        };
        self.injector.observe_hook(event, state, self.now);
    }

    fn says(&mut self, id: u32, text: &str) {
        let event = AgentEvent::AssistantMessage { session_id: id, text: text.to_string() };
        let seen = self.injector.observe(&event, self.now);
        self.rows.extend(seen.acked);
        let Some(relpath) = seen.validate else {
            return;
        };
        let clean = HandoffProbe::GitStatus { stdout: "?? .maestro/\n".to_string() };
        validate_handoff(&relpath, &clean).unwrap();
        let outcome = Ok(ValidatedHandoff { relpath, wip_commit: wip_head_sha("abc\n") });
        match self.injector.finish_validation(id, outcome, self.now) {
            ValidationStep::Transition { kind, .. } => {
                if self.tick_in_validation {
                    // A tick lands between the verdict and the change of state.
                    self.sweep();
                    assert!(self.injector.has_pending(id));
                    assert!(self.parker.parking_engaged());
                }
                let session = self.transition(id, validated_state(kind).unwrap()).unwrap();
                if kind == PendingKind::Park {
                    self.parker.on_parked(&session);
                }
                self.injector.complete_validation(id);
                if kind == PendingKind::Park {
                    self.torn_down.push(id);
                    match self.parker.finish_park(&session.project, &session.epic) {
                        ParkEnd::Advance => self.sweep(),
                        ParkEnd::ArmLate { resets_at } => {
                            self.arm_park(&session.project, &session.epic, resets_at)
                        }
                        ParkEnd::Nothing => {}
                    }
                }
            }
            other => panic!("unexpected: {other:?}"),
        }
    }

    fn tick(&mut self) {
        let times = LadderTimes { ack_timeout_secs: 180, max_turn_wait_secs: 1800 };
        let alerts = self.injector.timeout_pass(&self.sessions, self.now, times);
        for alert in alerts {
            if alert.kind == PendingKind::Park {
                self.parker.on_park_failed(alert.session_id);
            }
            self.rows.push(alert.row);
        }
        self.injector.idle_pass(&self.sessions, self.now);
        self.sweep();
    }

    fn complete_park(&mut self, id: u32, generation: u32) {
        assert!(self.injector.pending_view(id).is_some());
        self.hook(&stop_event(id));
        assert!(
            self.injector.pending_view(id).is_some_and(|(attempts, _, _)| attempts >= 1),
            "park instruction must inject on the idle signal"
        );
        self.says(id, &format!("<samurai-ack>park gen-{generation}</samurai-ack>"));
        self.says(
            id,
            &format!("<samurai-handoff-written>gen-{generation} park</samurai-handoff-written>"),
        );
    }

    fn epics(&self) -> Vec<&str> {
        let mut epics: Vec<&str> = self.timers.iter().map(|(t, _)| t.key.epic.as_str()).collect();
        epics.sort();
        epics
    }

    fn alerts(&self, kind: &str) -> usize {
        self.rows
            .iter()
            .filter(|r| r.event == AuditEventKind::Alert)
            .filter(|r| r.details.kind().as_deref() == Some(kind))
            .count()
    }
}

#[test]
fn test_soft_event_winds_down_only_eligible_sessions() {
    let mut y = Yard::new();
    // Session 1: WORKING, clean: eligible. Session 2: mid-handoff.
    y.register(1, "C:/git/p", "#1", 1);
    y.register(2, "C:/git/p", "#2", 1);
    y.transition(2, HandoffRequested);

    y.event(&AllowanceEvent::SoftCrossed);

    assert!(y.injector.has_pending(1), "eligible session wound down");
    assert!(!y.injector.has_pending(2), "mid-handoff session skipped");
    assert_eq!(y.state(1), Some(Working));
    assert!(!y.parker.parking_engaged(), "soft never engages the sweep");

    // A second soft crossing while the first wind-down is pending is a no-op.
    y.event(&AllowanceEvent::SoftCrossed);
    assert_eq!(y.injector.pending_view(1), Some((0, false, false)));
}

#[test]
fn test_soft_recovery_all_clears_wound_down_sessions_once() {
    let mut y = Yard::new();
    y.register(1, "C:/git/p", "#1", 1);
    y.register(2, "C:/git/p", "#2", 1);
    y.transition(2, HandoffRequested);

    // The episode: wind-down delivered and acked.
    y.event(&AllowanceEvent::SoftCrossed);
    y.hook(&stop_event(1));
    y.says(1, "<samurai-ack>winddown gen-1-1</samurai-ack>");
    assert!(!y.injector.has_pending(1));

    // Recovery: only the wound-down, never-parked session gets the all-clear.
    y.event(&AllowanceEvent::SoftRecovered);
    assert!(y.injector.has_pending(1), "wound-down session gets the all-clear");
    assert!(!y.injector.has_pending(2), "never-wound-down session gets nothing");
    assert_eq!(y.state(1), Some(Working));
    y.hook(&stop_event(1));
    y.says(1, "<samurai-ack>allclear gen-1-1</samurai-ack>");
    assert!(!y.injector.has_pending(1));
    assert_eq!(y.state(1), Some(Working));

    // Once per episode: a second recovery without a new wind-down sends nothing.
    y.event(&AllowanceEvent::SoftRecovered);
    assert!(!y.injector.has_pending(1));
}

#[test]
fn test_soft_recovery_defers_all_clear_while_parking_engaged() {
    let mut y = Yard::new();
    let project = "C:/git/proj-defer";

    // Session 2 winds down first, then its park fails: it stays WORKING for the
    // sweep's whole life without ever being targeted.
    y.register(2, project, "#2", 1);
    y.event(&AllowanceEvent::SoftCrossed);
    assert!(y.injector.has_pending(2), "session 2 wound down");
    y.parker.on_park_failed(2);

    // Session 1 is the sweep's real target.
    y.register(1, project, "#1", 1);
    y.event(&hard_event(Some(RESETS_AT)));
    assert!(y.parker.parking_engaged());
    assert_eq!(y.state(1), Some(ParkRequested));
    assert_eq!(y.state(2), Some(Working));

    // The window resets mid-sweep: deferred, not delivered.
    y.event(&AllowanceEvent::SoftRecovered);
    assert!(y.parker.parking_engaged(), "sweep still in flight");
    y.hook(&stop_event(2));
    y.says(2, "<samurai-ack>winddown gen-1-1</samurai-ack>");
    assert!(!y.injector.has_pending(2), "the wind-down entry was not overwritten");

    // Complete the sweep: session 1 parks, its timer arms.
    y.complete_park(1, 1);
    assert!(!y.parker.parking_engaged());
    assert_eq!(y.state(2), Some(Working), "the excluded session was never targeted");

    // Deferred, not dropped: the sweep's completion drives it.
    assert!(y.injector.has_pending(2));
    y.hook(&stop_event(2));
    y.says(2, "<samurai-ack>allclear gen-1-1</samurai-ack>");
    assert!(!y.injector.has_pending(2), "it is the all-clear");
    assert_eq!(y.state(2), Some(Working));
}

#[test]
fn test_soft_crossing_winds_down_over_a_pending_unacked_all_clear() {
    let mut y = Yard::new();
    y.register(1, "C:/git/p", "#1", 1);

    // Episode 1: wind down, ack it, then an all-clear that is never acked.
    y.event(&AllowanceEvent::SoftCrossed);
    y.hook(&stop_event(1));
    y.says(1, "<samurai-ack>winddown gen-1-1</samurai-ack>");
    y.event(&AllowanceEvent::SoftRecovered);
    assert!(y.injector.has_pending(1), "all-clear is pending, un-acked");

    // Episode 2: the stale all-clear must not eat this crossing.
    y.event(&AllowanceEvent::SoftCrossed);
    y.hook(&stop_event(1));
    y.says(1, "<samurai-ack>winddown gen-1-2</samurai-ack>");
    assert!(!y.injector.has_pending(1), "the pending entry is episode 2's wind-down");
}

#[test]
fn test_hard_sweep_parks_sequentially_highest_context_first() {
    let mut y = Yard::new();
    let project = "C:/git/proj-sweep";
    y.register(1, project, "#1", 1);
    y.register(2, project, "#2", 1);
    y.percents = vec![(1, pct(30.0)), (2, pct(80.0))];

    y.event(&hard_event(Some(RESETS_AT)));

    // Sequential: the higher-context session 2 goes first; session 1 is untouched
    // until session 2 finishes.
    assert!(y.parker.parking_engaged());
    assert_eq!(y.state(2), Some(ParkRequested));
    assert_eq!(y.state(1), Some(Working));

    y.complete_park(2, 1);
    assert_eq!(y.state(2), Some(Parked));
    // Teardown ran for session 2, then the sweep advanced to session 1.
    assert_eq!(y.state(1), Some(ParkRequested));
    assert_eq!(y.torn_down, vec![2]);

    y.complete_park(1, 1);
    assert_eq!(y.state(1), Some(Parked));
    // Sweep completes: timers armed for both epics, engaged cleared.
    assert!(!y.parker.parking_engaged());
    assert_eq!(y.torn_down, vec![2, 1]);
    assert_eq!(y.epics(), vec!["#1", "#2"]);
    for (timer, reason) in &y.timers {
        assert_eq!(timer.key.project, project);
        assert_eq!(reason, "park");
        assert_eq!(
            moment(&timer.fire_at),
            fire_at_for(moment(RESETS_AT), jitter_secs(&timer.key.epic))
        );
    }
    // The trail carries one timer_armed PARK row per epic.
    let armed = y
        .rows
        .iter()
        .filter(|r| r.event == AuditEventKind::Park)
        .filter(|r| matches!(r.details, AuditDetails::TimerArmed { .. }))
        .count();
    assert_eq!(armed, 2);
}

#[test]
fn test_second_hard_event_mid_sweep_merges_reset_and_never_double_targets() {
    let mut y = Yard::new();
    y.register(1, "C:/git/proj-merge", "#1", 1);

    y.event(&hard_event(Some(RESETS_AT)));
    assert_eq!(y.state(1), Some(ParkRequested));
    assert_eq!(y.injector.pending_view(1), Some((0, false, false)));

    // Another crossing lands mid-sweep with a later reset: only the reset merges.
    let later = "2030-01-03T00:00:00Z";
    y.event(&hard_event(Some(later)));
    assert_eq!(y.injector.pending_view(1), Some((0, false, false)));

    y.complete_park(1, 1);
    assert!(!y.parker.parking_engaged());
    assert_eq!(y.timers.len(), 1);
    assert_eq!(
        moment(&y.timers[0].0.fire_at),
        fire_at_for(moment(later), jitter_secs("#1")),
        "the later reset wins"
    );
}

#[test]
fn test_failed_park_is_skipped_and_sweep_continues() {
    let mut y = Yard::new();
    let project = "C:/git/proj-fail";
    y.register(1, project, "#1", 1);
    y.register(2, project, "#2", 1);
    y.percents = vec![(1, pct(90.0)), (2, pct(10.0))];

    y.event(&hard_event(Some(RESETS_AT)));
    assert_eq!(y.state(1), Some(ParkRequested));

    // Session 1 never ACKs: retry, then the ladder alerts; the parker skips it and
    // moves to session 2.
    y.hook(&stop_event(1)); // attempt 1
    assert_eq!(y.injector.pending_view(1), Some((1, false, false)));
    y.now += (TIMEOUT + Duration::from_secs(1)).as_nanos();
    y.hook(&stop_event(1)); // replied without the marker
    y.tick(); // arms the retry + injects attempt 2 (idle now)
    assert_eq!(y.injector.pending_view(1), Some((2, false, false)));
    y.now += (TIMEOUT + Duration::from_secs(1)).as_nanos();
    y.tick(); // attempt 2 expired: alert, the parker skips it

    assert_eq!(y.state(2), Some(ParkRequested));
    // The failed session stays in PARK_REQUESTED for a human.
    assert_eq!(y.state(1), Some(ParkRequested));

    y.complete_park(2, 1);
    assert!(!y.parker.parking_engaged());

    // Only the parked epic got a timer; the failed one has its alert.
    assert_eq!(y.epics(), vec!["#2"]);
    assert!(y.rows.iter().any(|r| r.event == AuditEventKind::Alert
        && matches!(
            r.details,
            AuditDetails::AckTimeout { instruction: PendingKind::Park, .. }
        )));
    assert_eq!(y.torn_down, vec![2]);
}

#[test]
fn test_park_landing_after_the_sweep_completed_still_arms_its_timer() {
    let mut y = Yard::new();
    let project = "C:/git/proj-late-park";
    y.register(1, project, "#1", 1);
    y.register(2, project, "#2", 1);
    y.percents = vec![(1, pct(90.0)), (2, pct(10.0))];

    y.event(&hard_event(Some(RESETS_AT)));

    // Session 1 is on a very long turn: its park is never even injected and the wait
    // cap alerts. The entry stays tracked but stops blocking.
    y.now += (MAX_TURN_WAIT + Duration::from_secs(1)).as_nanos();
    y.tick();
    assert_eq!(y.state(2), Some(ParkRequested));
    y.complete_park(2, 1);
    assert!(!y.parker.parking_engaged());
    assert_eq!(y.epics(), vec!["#2"], "only epic #2 armed so far");

    // The long turn finally ends and session 1's park validates, after the sweep
    // already disengaged.
    y.complete_park(1, 1);
    assert_eq!(y.epics(), vec!["#1", "#2"]);
    assert!(y.torn_down.contains(&1));
}

#[test]
fn test_mid_handoff_session_is_absorbed_not_parked() {
    let mut y = Yard::new();
    let project = "C:/git/proj-absorb";
    // Session 1 is mid-handoff with a live ladder entry when the threshold crosses.
    y.register(1, project, "#1", 1);
    let session = y.transition(1, HandoffRequested).unwrap();
    y.injector.begin_handoff(&session, y.now);

    y.event(&hard_event(Some(RESETS_AT)));
    // Mutual exclusion: no park instruction for it; the sweep waits.
    assert!(y.parker.parking_engaged());
    assert_eq!(y.state(1), Some(HandoffRequested));
    y.sweep();
    assert!(y.parker.parking_engaged(), "completing handoff holds the sweep open");

    // The handoff completes, and no successor is spawned.
    y.transition(1, HandoffWritten);
    y.injector.remove_session(1);
    y.transition(1, Killed);
    assert!(y.parker.absorb_handoff(project, "#1"), "engaged sweep absorbs");
    y.sweep();

    // Absorption completes the sweep: the epic still gets its timer.
    assert!(!y.parker.parking_engaged());
    assert_eq!(y.epics(), vec!["#1"]);
    assert_eq!(y.timers[0].1, "park");

    // Disengaged afterwards: absorption reverts to a plain "no".
    assert!(!y.parker.absorb_handoff(project, "#1"));
}

#[test]
fn test_missing_resets_at_alerts_instead_of_arming() {
    let mut y = Yard::new();
    y.register(1, "C:/git/proj-noreset", "#1", 1);

    y.event(&hard_event(None));
    y.complete_park(1, 1);
    assert!(!y.parker.parking_engaged());

    assert!(y.timers.is_empty(), "no guessed timer");
    assert_eq!(y.alerts("park_no_reset_time"), 1);
    assert!(y.rows.iter().any(
        |r| matches!(&r.details, AuditDetails::ParkNoResetTime { epic } if epic.as_str() == "#1")
    ));
}

#[test]
fn test_existing_later_timer_is_kept() {
    let mut y = Yard::new();
    let project = "C:/git/proj-keep";
    y.register(1, project, "#1", 1);
    // A later timer already armed for the epic.
    let later = "2031-06-01T00:00:00+00:00";
    y.arm(ResumeTimer {
        key: RunKey::new(project, "#1"),
        fire_at: later.to_string(),
        reason: "park".to_string(),
    });

    y.event(&hard_event(Some(RESETS_AT)));
    y.complete_park(1, 1);
    assert!(!y.parker.parking_engaged());
    assert_eq!(y.timers.len(), 1);
    assert_eq!(y.timers[0].0.fire_at, later, "the later timer survives");
}

#[test]
fn test_external_park_sweeps_without_timers_or_noise() {
    let mut y = Yard::new();
    y.register(1, "C:/git/proj-ext", "#1", 1);

    y.external_park("gh_auth_lost");

    // The sweep engages exactly like a hard crossing.
    assert!(y.parker.parking_engaged());
    assert_eq!(y.state(1), Some(ParkRequested));

    y.complete_park(1, 1);
    assert!(!y.parker.parking_engaged());
    assert_eq!(y.torn_down, vec![1]);

    // No reset time by design: no resume timer, and no noise per epic; only the one
    // alert on the supervised project.
    assert!(y.timers.is_empty(), "no guessed timer");
    assert_eq!(y.alerts("gh_auth_lost"), 1);
    assert_eq!(y.rows[0].project, "C:/git/proj-ext");
    assert_eq!(y.alerts("park_no_reset_time"), 0);
}

#[test]
fn test_external_park_alerts_once_for_each_project() {
    let mut y = Yard::new();
    y.register(1, "Q", "#9", 1);
    y.register(2, "P", "#2", 1);
    y.register(3, "P", "#1", 1);
    y.external_park("gh_auth_lost");
    let rows: Vec<(&str, &str)> =
        y.rows.iter().map(|r| (r.project.as_str(), r.epic.as_str())).collect();
    assert_eq!(rows, vec![("P", "#1"), ("Q", "#9")]);
    assert!(y.parker.parking_engaged());
}

#[test]
fn test_external_park_alerts_account_project_when_nothing_supervised() {
    let mut y = Yard::new();
    y.external_park("gh_auth_lost");
    // Nothing supervised: the alert still lands, and the empty sweep completes
    // without arming anything.
    assert!(!y.parker.parking_engaged());
    assert!(y.timers.is_empty());
    assert_eq!(y.alerts("gh_auth_lost"), 1);
    assert_eq!(y.rows[0].project, ACCOUNT_PROJECT);
}

#[test]
fn test_hard_crossing_joining_an_external_sweep_arms_timers_again() {
    let mut y = Yard::new();
    y.register(1, "C:/git/proj-ext-merge", "#1", 1);

    y.external_park("gh_auth_lost");
    // An allowance crossing joins mid-sweep: it brings a reset time, so its timer
    // arms normally.
    y.event(&hard_event(Some(RESETS_AT)));

    y.complete_park(1, 1);
    assert!(!y.parker.parking_engaged());
    assert_eq!(y.epics(), vec!["#1"], "the allowance crossing's timer arms");
}

#[test]
fn test_auth_restore_resumes_every_externally_parked_run_staggered() {
    let mut y = Yard::new();
    let project = "C:/git/proj-auth-release";
    // Same jitter: the collision that the stagger breaks.
    assert_eq!(jitter_secs("#180"), jitter_secs("#532"));
    y.register(1, project, "#180", 1);
    y.register(2, project, "#532", 1);

    y.external_park(GH_AUTH_LOST);
    y.complete_park(1, 1);
    y.complete_park(2, 1);
    assert!(!y.parker.parking_engaged());
    assert!(y.timers.is_empty(), "nothing is armed while the condition holds");

    assert_eq!(y.release(GH_AUTH_LOST), 2);

    assert_eq!(y.epics(), vec!["#180", "#532"], "both parked runs are armed to resume");
    for (_, reason) in &y.timers {
        assert_eq!(reason, GH_AUTH_RESTORED);
    }
    let fire = |epic: &str| {
        moment(&y.timers.iter().find(|(t, _)| t.key.epic == epic).unwrap().0.fire_at)
    };
    assert_ne!(fire("#180"), fire("#532"), "never two runs in the same instant");
    assert_eq!(fire("#532").secs - fire("#180").secs, 1, "the collision slides one second");
    // The first keeps its own jitter.
    assert_eq!(fire("#180").secs - y.wall.secs, i64::from(jitter_secs("#180")));

    // One shot: a second release finds nothing left parked.
    assert_eq!(y.release(GH_AUTH_LOST), 0);
    assert_eq!(y.timers.len(), 2);
}

#[test]
fn test_a_release_that_lands_mid_sweep_still_resumes_the_run() {
    let mut y = Yard::new();
    y.register(1, "C:/git/proj-auth-midsweep", "#180", 1);

    y.external_park(GH_AUTH_LOST);
    assert!(y.parker.parking_engaged(), "the sweep is still in flight");

    // The condition ends before the session finished parking.
    assert_eq!(y.release(GH_AUTH_LOST), 0, "nothing can be armed yet");

    y.complete_park(1, 1);
    assert!(!y.parker.parking_engaged());
    // Completion honours the deferred release.
    assert_eq!(y.epics(), vec!["#180"], "the mid-sweep release is not lost");
    assert_eq!(y.timers[0].1, GH_AUTH_RESTORED);
}

#[test]
fn test_an_allowance_park_is_untouched_by_an_auth_restore() {
    let mut y = Yard::new();
    y.register(1, "C:/git/proj-auth-allowance", "#1", 1);

    y.event(&hard_event(Some(RESETS_AT)));
    y.complete_park(1, 1);
    assert!(!y.parker.parking_engaged());
    assert_eq!(y.timers.len(), 1);
    assert_eq!(y.timers[0].1, "park");
    let before = y.timers[0].0.fire_at.clone();

    assert_eq!(y.release(GH_AUTH_LOST), 0, "a restore must not resume an allowance park");
    assert_eq!(y.timers.len(), 1);
    assert_eq!(y.timers[0].0.fire_at, before, "its own timer is left alone");
}

#[test]
fn test_a_run_archived_while_parked_is_skipped_silently() {
    let mut y = Yard::new();
    y.register(1, "C:/git/proj-auth-archived", "#1", 1);

    y.external_park(GH_AUTH_LOST);
    y.complete_park(1, 1);
    assert!(!y.parker.parking_engaged());

    // The human gave up on the run while it sat parked.
    y.archived.push("#1".to_string());
    let rows_before = y.rows.len();
    assert_eq!(y.release(GH_AUTH_LOST), 0);
    assert!(y.timers.is_empty(), "an archived run must not be resumed");
    assert_eq!(y.rows.len(), rows_before, "a skip is not news");
}

#[test]
fn test_external_park_joining_a_hard_sweep_keeps_its_timers() {
    let mut y = Yard::new();
    y.register(1, "C:/git/proj-hard-then-ext", "#1", 1);

    y.event(&hard_event(Some(RESETS_AT)));
    y.external_park("gh_auth_lost");

    y.complete_park(1, 1);
    assert!(!y.parker.parking_engaged());
    assert_eq!(y.epics(), vec!["#1"], "the sweep's timer survives a joining condition");
    assert_eq!(
        moment(&y.timers[0].0.fire_at),
        fire_at_for(moment(RESETS_AT), jitter_secs("#1"))
    );
}

#[test]
fn test_session_registered_mid_sweep_gets_parked_too() {
    let mut y = Yard::new();
    let project = "C:/git/proj-late";
    y.register(1, project, "#1", 1);

    y.event(&hard_event(Some(RESETS_AT)));
    assert_eq!(y.state(1), Some(ParkRequested));

    // A new session registers mid-sweep.
    y.register(3, project, "#3", 2);

    y.complete_park(1, 1);
    // The sweep reaches the newcomer instead of completing around it.
    assert_eq!(y.state(3), Some(ParkRequested));
    assert!(y.parker.parking_engaged());

    y.complete_park(3, 2);
    assert!(!y.parker.parking_engaged());
    assert_eq!(y.epics(), vec!["#1", "#3"]);
}

#[test]
fn test_park_validation_gap_holds_sweep_open_until_on_parked() {
    let mut y = Yard::new();
    y.register(1, "C:/git/proj-inj-gap", "epic-9", 2);
    y.tick_in_validation = true;
    // The hard crossing engages the sweep and asks the session to park.
    y.event(&hard_event(Some(RESETS_AT)));
    assert_eq!(y.state(1), Some(ParkRequested));

    // In the gap the entry must still be pending, and the racing tick must not end
    // the sweep.
    y.complete_park(1, 2);
    assert_eq!(y.state(1), Some(Parked));
    assert!(!y.parker.parking_engaged());
    assert_eq!(y.epics(), vec!["epic-9"], "the last park must arm its resume timer");
    assert_eq!(y.timers[0].1, "park");
}

// --- timers ---

#[test]
fn test_a_timer_names_its_moment() {
    let step = arm_resume_timer("/p", "#1", Some(moment(RESETS_AT)), 7, &Vec::new());
    let TimerStep::Arm { timer } = step else {
        panic!("armed");
    };
    assert_eq!(timer.fire_at, "2030-01-01T00:05:07+00:00");
    assert_eq!(timer.reason, PARK_TIMER_REASON);
    let row = timer_row(&timer, Ok(()));
    assert_eq!(row.event, AuditEventKind::Park);
    assert!(matches!(
        row.details,
        AuditDetails::TimerArmed { fire_at } if fire_at == "2030-01-01T00:05:07+00:00"
    ));
    let row = timer_row(&timer, Err("disk full".to_string()));
    assert_eq!(row.event, AuditEventKind::Alert);
    assert!(matches!(
        row.details,
        AuditDetails::ParkTimerArmFailed { epic, error } if epic == "#1" && error == "disk full"
    ));
    let row = arm_failed_row(&RunKey::new("/p", "#1"), "no".to_string());
    assert_eq!(row.project, "/p");
    assert_eq!(row.details.kind().as_deref(), Some("park_timer_arm_failed"));
}

#[test]
fn test_an_earlier_timer_is_replaced() {
    let armed = vec![ArmedTimer {
        key: RunKey::new("/p", "#1"),
        fire_at: "2030-01-01T00:05:06+00:00".to_string(),
    }];
    assert!(matches!(
        arm_resume_timer("/p", "#1", Some(moment(RESETS_AT)), 7, &armed),
        TimerStep::Arm { .. }
    ));
    // The same moment is kept.
    assert!(matches!(
        arm_resume_timer("/p", "#1", Some(moment(RESETS_AT)), 6, &armed),
        TimerStep::Keep
    ));
}

#[test]
fn test_live_and_timed_runs_are_not_resumed() {
    let released = |epic: &str| ReleasedRun {
        key: RunKey::new("/p", epic),
        standing: RunStanding::Unchecked,
        jitter: 5,
    };
    let session = SessionSnapshot {
        session_id: 1,
        project: "/p".to_string(),
        epic: "live".to_string(),
        generation: 1,
        state: Working,
        previous_state: None,
        in_flight: None,
    };
    let armed = vec![ArmedTimer {
        key: RunKey::new("/p", "timed"),
        fire_at: "garbage".to_string(),
    }];
    let plan = plan_resumes(
        &vec![released("live"), released("timed"), released("a"), released("b")],
        &vec![session],
        &armed,
        "cond",
        moment(RESETS_AT),
    );
    let fires: Vec<(&str, &str)> =
        plan.iter().map(|t| (t.key.epic.as_str(), t.fire_at.as_str())).collect();
    assert_eq!(
        fires,
        vec![("a", "2030-01-01T00:00:05+00:00"), ("b", "2030-01-01T00:00:06+00:00")]
    );
    assert_eq!(plan[0].reason, "cond");
}

#[test]
fn test_resuming_from_now_on() {
    let released = vec![ReleasedRun {
        key: RunKey::new("/p", "#1"),
        standing: RunStanding::Unchecked,
        jitter: 30,
    }];
    let before = chrono::Utc::now().timestamp();
    let plan = plan_resumes_now(&released, &Vec::new(), &Vec::new(), GH_AUTH_LOST).unwrap();
    let after = chrono::Utc::now().timestamp();
    assert_eq!(plan.len(), 1);
    let fire = moment(&plan[0].fire_at).secs;
    assert!(before + 30 <= fire && fire <= after + 30);
}

#[test]
fn test_no_run_resumes_past_the_end_of_the_calendar() {
    let released = |jitter: u32| {
        vec![ReleasedRun {
            key: RunKey::new("/p", "#1"),
            standing: RunStanding::Unchecked,
            jitter,
        }]
    };
    let none = Vec::new();
    let late = Moment { secs: LAST_SECOND - 5, nanos: 0 };
    let plan = plan_resumes_at(&released(5), &Vec::new(), &none, "cond", late).unwrap();
    assert_eq!(plan[0].fire_at, "+262142-12-31T23:59:59+00:00");
    assert!(plan_resumes_at(&released(6), &Vec::new(), &none, "cond", late).is_none());
    // Without a run to resume there is nothing to go wrong.
    let mut ended = released(6);
    ended[0].standing = RunStanding::Missing;
    assert!(plan_resumes_at(&ended, &Vec::new(), &none, "cond", late).unwrap().is_empty());
    assert!(plan_resumes_now(&ended, &Vec::new(), &none, "cond").unwrap().is_empty());
    assert!(plan_resumes_now(&Vec::new(), &Vec::new(), &none, "cond").unwrap().is_empty());
}
