use samurai::audit::{AuditDetails, AuditEventKind, AuditRow};
use samurai::progress::{
    is_churn, is_handoff_trigger, is_self_event, next_breaker, on_state_change, park_candidate,
    ObservedEvent, SamuraiProgress, StateChange,
};
use samurai::session::{SessionSnapshot, SupervisorState};
use SupervisorState::{
    Dead, HandoffRequested, HandoffWritten, Killed, ParkRequested, Parked, Working,
};

fn observed(
    epic: &str,
    event: AuditEventKind,
    generation: u32,
    session_id: u32,
    kind: Option<&str>,
    phase: Option<&str>,
) -> ObservedEvent {
    ObservedEvent {
        event,
        epic: epic.to_string(),
        generation,
        session_id,
        kind: kind.map(str::to_string),
        phase: phase.map(str::to_string),
    }
}

fn alert(kind: &str) -> ObservedEvent {
    observed("epic-1", AuditEventKind::Alert, 1, 1, Some(kind), None)
}

#[test]
fn test_self_event_filter() {
    // (event, is_self): the anti-cascade filter.
    let table = [
        // any PARK row
        (observed("epic-1", AuditEventKind::Park, 1, 1, None, Some("requested")), true),
        (alert("circuit_breaker"), true),     // the breaker's own alert
        (alert("handoff_churn"), true),       // the churn alert
        (alert("ack_timeout"), false),        // injector alerts count
        (alert("illegal_transition"), false), // rejections count
        (alert("dead"), false),               // watchdog alerts count
        (observed("epic-1", AuditEventKind::Spawn, 1, 1, None, None), false),
        (observed("epic-1", AuditEventKind::Handoff, 1, 1, None, Some("requested")), false),
        // typed instructions
        (observed("epic-1", AuditEventKind::Inject, 1, 1, None, Some("delivered")), true),
    ];
    for (event, expected) in table {
        assert_eq!(is_self_event(&event), expected, "{event:?}");
    }
}

#[test]
fn test_handoff_trigger_detection() {
    let requested = observed("e", AuditEventKind::Handoff, 1, 1, None, Some("requested"));
    assert!(is_handoff_trigger(&requested));
    let written = observed("e", AuditEventKind::Handoff, 1, 1, None, Some("written"));
    assert!(!is_handoff_trigger(&written));
    assert!(!is_handoff_trigger(&alert("handoff_churn")));
}

#[test]
fn test_breaker_counter_increment_reset_and_skip() {
    // (observed, count, latched, head) → (observed, count, latched)
    let table = [
        // First observation: sets the HEAD, counts nothing.
        (None, 0u32, false, Some("aaa"), (Some("aaa"), 0u32, false)),
        // Unchanged HEAD: consecutive zero-progress events increment.
        (Some("aaa"), 0, false, Some("aaa"), (Some("aaa"), 1, false)),
        (Some("aaa"), 4, false, Some("aaa"), (Some("aaa"), 5, false)),
        // Progress: reset, re-observe, clear the latch.
        (Some("aaa"), 4, false, Some("bbb"), (Some("bbb"), 0, false)),
        (Some("aaa"), 9, true, Some("bbb"), (Some("bbb"), 0, false)),
        // Unknown HEAD: skip; nothing counted, nothing reset.
        (Some("aaa"), 3, false, None, (Some("aaa"), 3, false)),
        (Some("aaa"), 3, true, None, (Some("aaa"), 3, true)),
        (None, 0, false, None, (None, 0, false)),
    ];
    for (observed, count, latched, head, expected) in table {
        let (o, c, l) = next_breaker(observed, count, latched, head);
        let expected = (expected.0.map(str::to_string), expected.1, expected.2);
        assert_eq!(
            (o, c, l),
            expected,
            "observed={observed:?} count={count} latched={latched} head={head:?}"
        );
    }
}

#[test]
fn test_the_count_saturates() {
    let (_, count, _) = next_breaker(Some("a"), u32::MAX, false, Some("a"));
    assert_eq!(count, u32::MAX);
}

#[test]
fn test_churn_decision() {
    // (baseline, head, churn): unknown on either side never alarms.
    let table = [
        (Some("aaa"), Some("aaa"), true),
        (Some("aaa"), Some("bbb"), false),
        (None, Some("aaa"), false),
        (Some("aaa"), None, false),
        (None, None, false),
    ];
    for (baseline, head, expected) in table {
        assert_eq!(is_churn(baseline, head), expected, "baseline={baseline:?} head={head:?}");
    }
}

#[test]
fn test_park_candidate_table() {
    // Only a WORKING session is parkable; the highest generation wins.
    assert_eq!(park_candidate(&[(1, 1, Working)]), Some(1));
    assert_eq!(park_candidate(&[(1, 1, Working), (2, 2, Working)]), Some(2));
    // Mid-handoff sessions defer (mutual exclusion), as does an already-parking one
    // and an empty list (between generations).
    assert_eq!(park_candidate(&[(1, 1, HandoffRequested)]), None);
    assert_eq!(park_candidate(&[(1, 1, HandoffWritten)]), None);
    assert_eq!(park_candidate(&[(1, 1, ParkRequested)]), None);
    assert_eq!(park_candidate(&[]), None);
    assert_eq!(park_candidate(&[(1, 1, HandoffRequested), (2, 2, Working)]), Some(2));
    // Of two with the same generation the last.
    assert_eq!(park_candidate(&[(7, 2, Working), (3, 2, Working)]), Some(3));
}

// --- the tracker with its sessions, its trail and its worktrees ---

struct Run {
    progress: SamuraiProgress,
    sessions: Vec<SessionSnapshot>,
    heads: Vec<(u32, String, Option<String>)>,
    rows: Vec<AuditRow>,
    breaker_events: u32,
}

impl Run {
    fn new(breaker_events: u32) -> Run {
        Run {
            progress: SamuraiProgress::new(),
            sessions: Vec::new(),
            heads: Vec::new(),
            rows: Vec::new(),
            breaker_events,
        }
    }

    /// The directory of a session, and what its HEAD is.
    fn place(&mut self, id: u32, dir: &str, head: Option<&str>) {
        self.heads.push((id, dir.to_string(), head.map(str::to_string)));
    }

    fn move_head(&mut self, dir: &str, head: &str) {
        for entry in self.heads.iter_mut().filter(|e| e.1 == dir) {
            entry.2 = Some(head.to_string());
        }
    }

    fn register(&mut self, id: u32, project: &str, epic: &str, generation: u32) {
        let session = SessionSnapshot {
            session_id: id,
            project: project.to_string(),
            epic: epic.to_string(),
            generation,
            state: Working,
            previous_state: None,
            in_flight: None,
        };
        assert_eq!(on_state_change(&session), StateChange::Registered);
        let place = self.heads.iter().find(|e| e.0 == id).map(|e| (e.1.clone(), e.2.clone()));
        self.sessions.push(session);
        self.progress.handle_register(id, project, epic, generation, place);
        self.evaluate(project, epic);
        self.append(project, observed(epic, AuditEventKind::Spawn, generation, id, None, None));
    }

    fn transition(&mut self, id: u32, state: SupervisorState) {
        let session = self.sessions.iter_mut().find(|s| s.session_id == id).unwrap();
        session.previous_state = Some(session.state);
        session.state = state;
        let (project, epic, generation) =
            (session.project.clone(), session.epic.clone(), session.generation);
        if on_state_change(session) == StateChange::Ended {
            self.progress.handle_terminal(id);
        }
        let (event, phase) = match state {
            HandoffRequested => (AuditEventKind::Handoff, "requested"),
            HandoffWritten => (AuditEventKind::Handoff, "written"),
            ParkRequested => (AuditEventKind::Park, "requested"),
            Parked => (AuditEventKind::Park, "parked"),
            _ => (AuditEventKind::Other, "ended"),
        };
        self.append(&project, observed(&epic, event, generation, id, None, Some(phase)));
    }

    fn append(&mut self, project: &str, event: ObservedEvent) {
        let head = match self.progress.audit_dir(project, &event) {
            Some(dir) => self.heads.iter().find(|e| e.1 == dir).and_then(|e| e.2.clone()),
            None => None,
        };
        let (churn, due) =
            self.progress.handle_audit(project, &event, head.as_deref(), self.breaker_events);
        if let Some(row) = churn {
            self.alert(project, row);
        }
        if due {
            self.evaluate(project, &event.epic);
        }
    }

    fn alert(&mut self, project: &str, row: AuditRow) {
        let kind = row.details.kind();
        let event = observed(
            &row.epic,
            row.event,
            row.generation,
            row.session_id,
            kind.as_deref(),
            None,
        );
        self.rows.push(row);
        self.append(project, event);
    }

    fn evaluate(&mut self, project: &str, epic: &str) {
        let park =
            self.progress.evaluate_trip(project, epic, self.breaker_events, &self.sessions);
        if let Some(id) = park {
            self.transition(id, ParkRequested);
            self.transition(id, Parked);
            let generation = self.sessions.iter().find(|s| s.session_id == id).unwrap().generation;
            let row = self.progress.park_finished(project, epic, id, Some(generation));
            if let Some(row) = row {
                self.alert(project, row);
            }
        }
    }

    fn countable(&mut self, project: &str, epic: &str, id: u32) {
        self.append(
            project,
            observed(epic, AuditEventKind::Alert, 1, id, Some("ack_timeout"), None),
        );
    }

    fn alerts(&self, kind: &str) -> Vec<&AuditRow> {
        self.rows.iter().filter(|r| r.details.kind().as_deref() == Some(kind)).collect()
    }

    fn state(&self, id: u32) -> SupervisorState {
        self.sessions.iter().find(|s| s.session_id == id).unwrap().state
    }
}

const REPO: &str = "/git/repo";

#[test]
fn test_breaker_trips_working_session_once_with_alert() {
    let mut run = Run::new(3);
    run.place(1, REPO, Some("aaa"));
    run.register(1, REPO, "epic-b", 1);

    // Baseline recorded; the SPAWN row made the first HEAD observation.
    assert_eq!(run.progress.baseline_view(1), Some((1, Some("aaa".to_string()))));
    let fresh = Some((Some("aaa".to_string()), 0, false));
    assert_eq!(run.progress.breaker_view(REPO, "epic-b"), fresh);

    // Three consecutive events with HEAD unchanged: trip at the third.
    for _ in 0..3 {
        run.countable(REPO, "epic-b", 1);
    }
    assert_eq!(run.state(1), Parked, "the breaker must park gen-1");
    {
        let trips = run.alerts("circuit_breaker");
        assert_eq!(trips.len(), 1, "the trip fires exactly one alert");
        match &trips[0].details {
            AuditDetails::CircuitBreaker { epic, events, head } => {
                assert_eq!(*events, 3);
                assert_eq!(head.as_deref(), Some("aaa"));
                assert_eq!(epic, "epic-b");
            }
            other => panic!("unexpected: {other:?}"),
        }
        assert_eq!(trips[0].session_id, 1);
    }
    // A successful trip resets counter and latch, and its own rows do not count.
    assert_eq!(run.progress.breaker_view(REPO, "epic-b"), fresh);

    // Zero progress continues, but the only session is PARKED: the trip latches and
    // never double-fires.
    for _ in 0..3 {
        run.countable(REPO, "epic-b", 1);
    }
    assert_eq!(run.alerts("circuit_breaker").len(), 1);
    assert_eq!(run.state(1), Parked);
    let (_, _, latched) = run.progress.breaker_view(REPO, "epic-b").unwrap();
    assert!(latched, "a due trip with nobody parkable stays latched");
}

#[test]
fn test_self_events_never_advance_the_counter() {
    let mut run = Run::new(2);
    run.place(1, REPO, Some("aaa"));
    run.register(1, REPO, "epic-s", 1);
    assert_eq!(run.progress.breaker_view(REPO, "epic-s").unwrap().1, 0);

    run.append(REPO, observed("epic-s", AuditEventKind::Park, 1, 1, None, Some("requested")));
    run.append(
        REPO,
        observed("epic-s", AuditEventKind::Alert, 1, 1, Some("circuit_breaker"), None),
    );
    run.append(REPO, observed("epic-s", AuditEventKind::Alert, 1, 1, Some("handoff_churn"), None));

    let (_, count, latched) = run.progress.breaker_view(REPO, "epic-s").unwrap();
    assert_eq!(count, 0, "self events must not advance the counter");
    assert!(!latched);
    assert_eq!(run.state(1), Working, "no trip from self events");
}

#[test]
fn test_mid_handoff_defers_then_successor_registration_trips() {
    let mut run = Run::new(2);
    run.place(1, REPO, Some("aaa"));
    run.register(1, REPO, "epic-m", 1);

    // The handoff-requested row itself is countable (count 1), and one more
    // zero-progress event makes the trip due (count 2).
    run.transition(1, HandoffRequested);
    run.countable(REPO, "epic-m", 1);

    // Mid-handoff: no park, no alert, the trip is latched for later.
    assert_eq!(run.state(1), HandoffRequested);
    assert!(run.alerts("circuit_breaker").is_empty());
    let (_, _, latched) = run.progress.breaker_view(REPO, "epic-m").unwrap();
    assert!(latched, "a due trip mid-handoff must latch, not park");

    // The handoff completes and gen-2 registers, still with zero progress: the
    // latched trip parks the successor.
    run.transition(1, HandoffWritten);
    run.transition(1, Killed);
    run.place(2, REPO, Some("aaa"));
    run.register(2, REPO, "epic-m", 2);

    assert_eq!(run.state(2), Parked, "the successor inherits the trip");
    {
        let trips = run.alerts("circuit_breaker");
        assert_eq!(trips.len(), 1);
        assert_eq!(trips[0].session_id, 2);
        assert_eq!(trips[0].generation, 2);
    }
    let (_, count, latched) = run.progress.breaker_view(REPO, "epic-m").unwrap();
    assert!(count <= 1, "a successful trip resets the counter (got {count})");
    assert!(!latched);
    // Gen-1 went terminal: its baseline entry is cleaned up.
    assert!(run.progress.baseline_view(1).is_none());
}

#[test]
fn test_unknown_head_never_trips() {
    let mut run = Run::new(1);
    // Every HEAD read fails, so HEAD is permanently unknown for this epic.
    run.place(1, "/git/repo/missing", None);
    run.register(1, REPO, "epic-u", 1);
    for _ in 0..5 {
        run.countable(REPO, "epic-u", 1);
    }

    // Even at one event, unknown HEAD never counts and never trips.
    assert_eq!(run.state(1), Working);
    assert!(run.alerts("circuit_breaker").is_empty());
    assert_eq!(run.progress.baseline_view(1).unwrap(), (1, None));
    assert_eq!(run.progress.breaker_view(REPO, "epic-u").unwrap(), (None, 0, false));

    // A session with no resolvable directory at all: no epic entry, no baseline
    // HEAD; equally silent.
    let project2 = "C:/git/never-resolved";
    run.register(2, project2, "epic-n", 1);
    run.countable(project2, "epic-n", 2);
    assert_eq!(run.state(2), Working);
    assert!(run.alerts("circuit_breaker").is_empty());
    assert_eq!(run.progress.baseline_view(2).unwrap(), (1, None));
    assert!(run.progress.breaker_view(project2, "epic-n").is_none());
}

#[test]
fn test_removal_prunes_breaker_only_when_last_baseline_drops() {
    let mut run = Run::new(100);
    run.place(1, REPO, Some("aaa"));
    run.place(2, REPO, Some("aaa"));
    run.register(1, REPO, "epic-x", 1);
    run.register(2, REPO, "epic-x", 2);
    assert!(run.progress.breaker_view(REPO, "epic-x").is_some());

    // First removal: a baseline for the epic remains, the entry is kept.
    run.progress.handle_removed(1);
    assert!(run.progress.baseline_view(1).is_none());
    assert!(run.progress.breaker_view(REPO, "epic-x").is_some());

    // Second removal: the epic's last baseline drops, the entry is pruned.
    run.progress.handle_removed(2);
    assert!(run.progress.baseline_view(2).is_none());
    assert!(run.progress.breaker_view(REPO, "epic-x").is_none());

    // Idempotent for unknown sessions.
    run.progress.handle_removed(99);
    assert!(run.progress.breaker_view(REPO, "epic-x").is_none());
}

#[test]
fn test_relaunched_epic_gen_1_starts_from_a_clean_breaker() {
    let mut run = Run::new(3);
    run.place(1, REPO, Some("aaa"));
    run.register(1, REPO, "epic-r", 1);

    // Mid-handoff, so the due trip cannot park anybody: latched.
    run.transition(1, HandoffRequested);
    for _ in 0..2 {
        run.countable(REPO, "epic-r", 1);
    }
    let (_, _, latched) = run.progress.breaker_view(REPO, "epic-r").unwrap();
    assert!(latched, "a due-but-unparkable trip must latch");

    // Normal end of life: terminal transition, then teardown. The baseline is
    // already gone, so the removal cannot prune the entry.
    run.transition(1, Dead);
    run.progress.handle_removed(1);
    assert!(run.progress.breaker_view(REPO, "epic-r").is_some());

    // Relaunch: a fresh gen-1 for the same run.
    run.place(2, REPO, Some("aaa"));
    run.register(2, REPO, "epic-r", 1);

    assert_eq!(run.state(2), Working, "a fresh launch must not be parked on sight");
    let (_, count, latched) = run.progress.breaker_view(REPO, "epic-r").unwrap();
    assert_eq!((count, latched), (0, false), "gen-1 resets the breaker");
    assert!(run.alerts("circuit_breaker").is_empty());
}

#[test]
fn test_successor_generation_keeps_the_breaker_counter() {
    let mut run = Run::new(100);
    run.place(1, REPO, Some("aaa"));
    run.register(1, REPO, "epic-s", 1);
    for _ in 0..2 {
        run.countable(REPO, "epic-s", 1);
    }
    let (_, before, _) = run.progress.breaker_view(REPO, "epic-s").unwrap();
    assert_eq!(before, 2);

    run.transition(1, HandoffRequested);
    run.transition(1, HandoffWritten);
    run.transition(1, Killed);
    run.place(2, REPO, Some("aaa"));
    run.register(2, REPO, "epic-s", 2);

    let (_, after, _) = run.progress.breaker_view(REPO, "epic-s").unwrap();
    assert!(
        after >= before,
        "a successor must not reset the counter (before={before}, after={after})"
    );
}

#[test]
fn test_churn_alert_on_zero_commit_generation() {
    // High threshold: the breaker stays quiet, churn is isolated.
    let mut run = Run::new(100);
    run.place(1, REPO, Some("aaa"));
    run.register(1, REPO, "epic-c", 1);

    // Handoff triggered with zero commits this generation: an alert, and the handoff
    // proceeds.
    run.transition(1, HandoffRequested);
    let churn = run.alerts("handoff_churn");
    assert_eq!(churn.len(), 1);
    assert!(matches!(
        &churn[0].details,
        AuditDetails::HandoffChurn { baseline_head } if baseline_head.as_str() == "aaa"
    ));
    assert_eq!(churn[0].generation, 1);
    assert_eq!(churn[0].session_id, 1);
    assert_eq!(run.state(1), HandoffRequested, "churn must not block the handoff");
}

#[test]
fn test_no_churn_after_progress_or_with_unknown_baseline() {
    let mut run = Run::new(100);

    // Generation with a commit: no churn.
    run.place(1, REPO, Some("aaa"));
    run.register(1, REPO, "epic-p", 1);
    run.move_head(REPO, "bbb");
    run.transition(1, HandoffRequested);
    assert!(run.alerts("handoff_churn").is_empty(), "a commit is not churn");

    // Unknown baseline: no churn, even though the handoff fires.
    run.register(2, "C:/git/no-baseline", "epic-q", 1);
    run.transition(2, HandoffRequested);
    assert!(run.alerts("handoff_churn").is_empty());
}

#[test]
fn test_a_refused_park_latches_the_trip() {
    let mut run = Run::new(100);
    run.place(1, REPO, Some("aaa"));
    run.register(1, REPO, "epic-l", 1);
    assert!(run.progress.park_finished(REPO, "epic-l", 1, None).is_none());
    assert!(run.progress.breaker_view(REPO, "epic-l").unwrap().2);
    // Progress clears the latch.
    run.move_head(REPO, "bbb");
    run.countable(REPO, "epic-l", 1);
    assert_eq!(
        run.progress.breaker_view(REPO, "epic-l").unwrap(),
        (Some("bbb".to_string()), 0, false)
    );
}
