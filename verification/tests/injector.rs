use samurai::audit::{AuditDetails, AuditEventKind, AuditRow, Gate, StuckWait};
use samurai::handoff_file::handoff_file_relpath;
use samurai::injector::{
    session_state, validated_state, SamuraiInjector, SessionReading, TriggerAction,
    ValidatedHandoff, ValidationStep, BLIND_TICKS_BEFORE_ALERT,
};
use samurai::ladder::{
    ack_value, corrective_instruction_for, expected_ack_value, expected_written_value,
    marker_value, written_value, PendingKind,
};
use samurai::paths::{normalize_project, strip_extended_prefix};
use samurai::pending::{
    idle_effect, idle_session_id, should_inject_on_idle, should_request_handoff, timeout_verdict,
    written_verdict, LadderTimes, TimeoutVerdict, WrittenVerdict,
};
use samurai::prompts::handoff_instruction;
use samurai::session::{AgentEvent, InstructionKind, SessionSnapshot, SupervisorState};
use samurai::validation::{porcelain_line_blocks, validate_handoff, wip_head_sha, HandoffProbe};
use std::time::Duration;
use SupervisorState::{
    Dead, HandoffRequested, HandoffWritten, Killed, ParkRequested, Parked, Working,
};

const TIMEOUT: Duration = Duration::from_secs(180);
const OVER: Option<Duration> = Some(Duration::from_secs(181));
const UNDER: Option<Duration> = Some(Duration::from_secs(30));
/// The written window at the default times.
const WINDOW: Duration = Duration::from_secs(540);
const OVER_WINDOW: Option<Duration> = Some(Duration::from_secs(541));
const UNDER_WINDOW: Option<Duration> = Some(Duration::from_secs(300));
/// How long the turn in flight may take, and one second more.
const MAX_TURN_WAIT: Duration = Duration::from_secs(1800);
const TURN_WAIT_OVER: Duration = Duration::from_secs(1801);
const WAIT_OK: Duration = Duration::from_secs(60);
/// A wait past the cap of an armed retry.
const WAIT_OVER: Duration = Duration::from_secs(541);

/// A percentage as a number that orders as the percentage does.
fn pct(value: f64) -> u64 {
    assert!(value >= 0.0);
    value.to_bits()
}

fn times() -> LadderTimes {
    LadderTimes { ack_timeout_secs: 180, max_turn_wait_secs: 1800 }
}

fn verdict(
    acked: bool,
    attempts: u8,
    awaiting_retry: bool,
    elapsed: Option<Duration>,
    waiting: Duration,
    timeout: Duration,
    max_turn_wait: Duration,
) -> TimeoutVerdict {
    timeout_verdict(
        acked,
        attempts,
        awaiting_retry,
        elapsed.map(|e| e.as_nanos()),
        waiting.as_nanos(),
        timeout.as_nanos(),
        max_turn_wait.as_nanos(),
    )
}

fn written(
    validating: bool,
    corrective: bool,
    elapsed: Option<Duration>,
    window: Duration,
) -> WrittenVerdict {
    written_verdict(validating, corrective, elapsed.map(|e| e.as_nanos()), window.as_nanos())
}

fn copy_of(session: &SessionSnapshot) -> SessionSnapshot {
    SessionSnapshot {
        session_id: session.session_id,
        project: session.project.clone(),
        epic: session.epic.clone(),
        generation: session.generation,
        state: session.state,
        previous_state: session.previous_state,
        in_flight: session.in_flight,
    }
}

fn stop_event(session_id: u32) -> AgentEvent {
    AgentEvent::SessionEnded { session_id, reason: "stop".to_string() }
}

fn assistant_message(session_id: u32, text: &str) -> AgentEvent {
    AgentEvent::AssistantMessage { session_id, text: text.to_string() }
}

/// What a session's working directory would show.
enum Tree {
    Unknown,
    Missing,
    Clean(String),
    Dirty(String),
}

/// An injector with everything it works on: the sessions with their states, the
/// context readings, the clock, the terminals and the audit trail.
struct Desk {
    injector: SamuraiInjector,
    sessions: Vec<SessionSnapshot>,
    readings: Vec<(u32, f64)>,
    thresholds: Vec<(String, f64)>,
    tree: Tree,
    rewatch: Option<bool>,
    rewatched: Vec<u32>,
    now: u128,
    typed: Vec<(u32, String)>,
    rows: Vec<AuditRow>,
    changes: Vec<(u32, SupervisorState, Option<AuditDetails>)>,
}

impl Desk {
    fn new() -> Desk {
        Desk {
            injector: SamuraiInjector::new(),
            sessions: Vec::new(),
            readings: Vec::new(),
            thresholds: Vec::new(),
            tree: Tree::Unknown,
            rewatch: None,
            rewatched: Vec::new(),
            now: 1_000_000_000,
            typed: Vec::new(),
            rows: Vec::new(),
            changes: Vec::new(),
        }
    }

    fn register(&mut self, id: u32, project: &str, epic: &str, generation: u32) -> SessionSnapshot {
        let session = SessionSnapshot {
            session_id: id,
            project: normalize_project(project),
            epic: epic.to_string(),
            generation,
            state: Working,
            previous_state: None,
            in_flight: None,
        };
        self.sessions.push(copy_of(&session));
        session
    }

    fn transition(
        &mut self,
        id: u32,
        state: SupervisorState,
        details: Option<AuditDetails>,
    ) -> SessionSnapshot {
        let session = self.sessions.iter_mut().find(|s| s.session_id == id).unwrap();
        let allowed = match (session.state, state) {
            (Working, HandoffRequested) | (Working, ParkRequested) => true,
            (HandoffRequested, HandoffWritten) | (ParkRequested, Parked) => true,
            (from, Dead) => !from.is_terminal(),
            _ => false,
        };
        assert!(allowed, "{:?} -> {state:?}", session.state);
        session.previous_state = Some(session.state);
        session.state = state;
        session.in_flight = match state {
            HandoffRequested => Some(InstructionKind::Handoff),
            ParkRequested => Some(InstructionKind::Park),
            _ => None,
        };
        let session = copy_of(session);
        self.changes.push((id, state, details));
        session
    }

    fn session(&self, id: u32) -> SessionSnapshot {
        copy_of(self.sessions.iter().find(|s| s.session_id == id).unwrap())
    }

    fn state(&self, id: u32) -> Option<SupervisorState> {
        session_state(&self.sessions, id)
    }

    fn reads(&mut self, id: u32, percent: f64) {
        self.readings.retain(|r| r.0 != id);
        self.readings.push((id, percent));
    }

    fn advance(&mut self, by: Duration) {
        self.now += by.as_nanos();
    }

    fn deliver(&mut self, typed: Vec<(u32, String)>, gate: Gate) {
        for (id, text) in typed {
            assert!(!text.contains('\r') && !text.contains('\n'), "one line without a submit key");
            let excerpt: String = text.chars().take(200).collect();
            let row = self.injector.record_delivery_outcome(
                id,
                gate,
                excerpt,
                text.chars().count(),
                Ok(()),
            );
            self.rows.extend(row);
            self.typed.push((id, text));
        }
    }

    fn tick(&mut self) {
        let readings: Vec<SessionReading> = self
            .sessions
            .iter()
            .map(|s| SessionReading {
                session: copy_of(s),
                percent: self.readings.iter().find(|r| r.0 == s.session_id).map(|r| pct(r.1)),
                threshold: self.thresholds.iter().find(|t| t.0 == s.epic).map(|t| pct(t.1)),
            })
            .collect();
        let actions = self.injector.trigger_pass(&readings, pct(40.0), self.rewatch.is_some());
        for action in actions {
            match action {
                TriggerAction::RequestHandoff { session_id } => {
                    let session = self.transition(session_id, HandoffRequested, None);
                    self.injector.begin_handoff(&session, self.now);
                }
                TriggerAction::Rewatch { session_id } => {
                    self.rewatched.push(session_id);
                    let session = self.session(session_id);
                    let row = self.injector.rewatch_finished(&session, self.rewatch.unwrap());
                    self.rows.extend(row);
                }
                TriggerAction::AlertBlind { row } => self.rows.push(row),
            }
        }
        let alerts = self.injector.timeout_pass(&self.sessions, self.now, times());
        self.rows.extend(alerts.into_iter().map(|a| a.row));
        let typed = self.injector.idle_pass(&self.sessions, self.now);
        self.deliver(typed, Gate::IdleAtTick);
    }

    fn idle(&mut self, id: u32) -> Option<String> {
        let state = self.state(id);
        self.injector.on_idle(id, state, self.now)
    }

    fn hook(&mut self, event: &AgentEvent) {
        let state = match idle_session_id(event) {
            Some(id) => self.state(id),
            None => None,
        };
        let typed = self.injector.observe_hook(event, state, self.now);
        self.deliver(typed.into_iter().collect(), Gate::StopHook);
    }

    fn probe(&self) -> (HandoffProbe, &str) {
        match &self.tree {
            Tree::Unknown => (HandoffProbe::DirectoryUnknown, ""),
            Tree::Missing => (HandoffProbe::FileMissing, ""),
            Tree::Clean(head) => (
                HandoffProbe::GitStatus { stdout: "?? .maestro/\n".to_string() },
                head.as_str(),
            ),
            Tree::Dirty(head) => (
                HandoffProbe::GitStatus { stdout: " M tracked.txt\n?? .maestro/\n".to_string() },
                head.as_str(),
            ),
        }
    }

    fn says(&mut self, id: u32, text: &str) {
        let seen = self.injector.observe(&assistant_message(id, text), self.now);
        self.rows.extend(seen.acked);
        let Some(relpath) = seen.validate else {
            return;
        };
        let (probe, head) = self.probe();
        let outcome = match validate_handoff(&relpath, &probe) {
            Ok(()) => Ok(ValidatedHandoff { wip_commit: wip_head_sha(head), relpath }),
            Err(failure) => Err(failure),
        };
        match self.injector.finish_validation(id, outcome, self.now) {
            ValidationStep::Transition { kind, details } => {
                assert!(self.injector.has_pending(id), "pending until the change is done");
                let state = validated_state(kind).unwrap();
                self.transition(id, state, Some(details));
                self.injector.complete_validation(id);
            }
            ValidationStep::Alert { row, .. } => self.rows.push(row),
            ValidationStep::Ignored | ValidationStep::Corrected => {}
        }
    }

    fn alerts(&self, kind: &str) -> Vec<&AuditRow> {
        self.rows
            .iter()
            .filter(|r| r.event == AuditEventKind::Alert)
            .filter(|r| r.details.kind().as_deref() == Some(kind))
            .collect()
    }

    fn corrective(&self, id: u32) -> bool {
        matches!(self.injector.pending_detail(id), Some((true, false, Some(_))))
    }

    fn failure(&self, id: u32) -> String {
        self.injector.pending_detail(id).unwrap().2.unwrap()
    }

    fn handoff_requested(&mut self, project: &str, epic: &str, generation: u32) {
        self.register(1, project, epic, generation);
        self.reads(1, 50.0);
        self.tick();
    }

    fn drive_to_acked(&mut self, project: &str, generation: u32) {
        self.handoff_requested(project, "epic-9", generation);
        self.idle(1).expect("attempt 1");
        self.says(1, &format!("<samurai-ack>handoff gen-{generation}</samurai-ack>"));
    }

    fn drive_to_park_requested(&mut self, project: &str, generation: u32) {
        self.register(1, project, "epic-9", generation);
        self.park();
    }

    fn park(&mut self) {
        let session = self.transition(1, ParkRequested, None);
        let typed = self.injector.begin_park(&session, Some(ParkRequested), self.now);
        self.deliver(typed.into_iter().map(|t| (1, t)).collect(), Gate::AlreadyIdle);
    }

    fn soft_winddown(&mut self) -> bool {
        let session = self.session(1);
        let (armed, typed) =
            self.injector.begin_soft_winddown(&session, Some(session.state), self.now);
        assert!(typed.is_none());
        armed
    }

    fn allclear(&mut self) -> bool {
        let session = self.session(1);
        let (armed, typed) =
            self.injector.begin_winddown_allclear(&session, Some(session.state), self.now);
        assert!(typed.is_none());
        armed
    }
}

const HEAD: &str = "0123456789abcdef0123456789abcdef01234567";

#[test]
fn test_trigger_only_for_working_at_or_past_threshold() {
    // (state, percent, expected) — threshold 45.0 throughout.
    let table = [
        (Working, Some(45.0), true), // at threshold: >= fires
        (Working, Some(45.1), true),
        (Working, Some(90.0), true),
        (Working, Some(44.9), false),
        (Working, None, false), // no reading yet: missing evidence
        (HandoffRequested, Some(90.0), false), // already requested
        (HandoffWritten, Some(90.0), false),
        (ParkRequested, Some(90.0), false),
        (Killed, Some(90.0), false),
        (Parked, Some(90.0), false),
        (Dead, Some(90.0), false),
    ];
    for (state, percent, expected) in table {
        assert_eq!(
            should_request_handoff(state, percent.map(pct), pct(45.0)),
            expected,
            "{state:?} at {percent:?}"
        );
    }
}

#[test]
fn test_idle_signal_is_only_the_stop_hook() {
    let stop = AgentEvent::SessionEnded {
        session_id: 7,
        reason: "stop".into(),
    };
    assert_eq!(idle_session_id(&stop), Some(7));

    // The SessionEnd hook emits the same variant with another reason.
    let ended = AgentEvent::SessionEnded {
        session_id: 7,
        reason: "exit".into(),
    };
    assert_eq!(idle_session_id(&ended), None);

    let other = AgentEvent::UserMessage {
        session_id: 7,
    };
    assert_eq!(idle_session_id(&other), None);
}

#[test]
fn test_idle_effect_table() {
    // (event, expected) — the idle flag transitions.
    let table: [(AgentEvent, Option<(u32, bool)>); 6] = [
        (
            // The Stop hook: idle right now.
            AgentEvent::SessionEnded {
                session_id: 1,
                reason: "stop".into(),
            },
            Some((1, true)),
        ),
        (
            // Any other SessionEnded: the session is gone, never idle.
            AgentEvent::SessionEnded {
                session_id: 2,
                reason: "exit".into(),
            },
            Some((2, false)),
        ),
        (
            // A fresh session: turn state unknown, treat as active.
            AgentEvent::SessionStarted {
                session_id: 3,
            },
            Some((3, false)),
        ),
        (
            // A tool call: the agent is actively working.
            AgentEvent::ToolUseStarted {
                session_id: 4,
            },
            Some((4, false)),
        ),
        (
            // A submitted prompt: the turn restarted.
            AgentEvent::UserMessage {
                session_id: 5,
            },
            Some((5, false)),
        ),
        (
            // AssistantMessage deliberately says nothing: it can arrive
            // AFTER its own turn's Stop (transcript lag) and must not
            // wipe the idle flag.
            AgentEvent::AssistantMessage {
                session_id: 6,
                text: "done".into(),
            },
            None,
        ),
    ];
    for (event, expected) in table {
        assert_eq!(idle_effect(&event), expected, "{event:?}");
    }
}

#[test]
fn test_inject_on_idle_sequencing() {
    // (state, expected_state, acked, attempts, awaiting_retry, expected)
    let table = [
        (HandoffRequested, HandoffRequested, false, 0, false, true), // first idle → attempt 1
        (HandoffRequested, HandoffRequested, false, 1, true, true), // timed out → retry at idle
        (HandoffRequested, HandoffRequested, false, 1, false, false), // reply w/o marker: hold for timeout
        (HandoffRequested, HandoffRequested, false, 2, false, false), // both attempts spent
        (HandoffRequested, HandoffRequested, false, 2, true, false),  // never a third attempt
        (HandoffRequested, HandoffRequested, true, 0, false, false),  // ACKed before injection
        (HandoffRequested, HandoffRequested, true, 1, false, false),  // ACKed: done here
        (Working, HandoffRequested, false, 0, false, false),          // not in handoff
        (HandoffWritten, HandoffRequested, false, 0, false, false),
        (Dead, HandoffRequested, false, 1, true, false),
        // The park ladder lives in PARK_REQUESTED …
        (ParkRequested, ParkRequested, false, 0, false, true),
        (ParkRequested, ParkRequested, false, 1, true, true),
        (ParkRequested, ParkRequested, true, 1, false, false),
        (Working, ParkRequested, false, 0, false, false), // left the state
        // … and the soft wind-down in WORKING.
        (Working, Working, false, 0, false, true),
        (Working, Working, false, 1, true, true),
        (ParkRequested, Working, false, 0, false, false), // superseded
    ];
    for (state, expected_state, acked, attempts, awaiting_retry, expected) in table {
        assert_eq!(
            should_inject_on_idle(state, expected_state, acked, attempts, awaiting_retry),
            expected,
            "{state:?}/{expected_state:?} acked={acked} attempts={attempts} awaiting_retry={awaiting_retry}"
        );
    }
}

#[test]
fn test_timeout_verdict_sequencing() {
    // (acked, attempts, awaiting_retry, elapsed, waiting, expected)
    let table = [
        (false, 0, false, None, WAIT_OK, TimeoutVerdict::Keep), // not injected: waiting, inside the cap
        (false, 1, false, UNDER, WAIT_OK, TimeoutVerdict::Keep), // inside the window
        (false, 1, false, OVER, WAIT_OK, TimeoutVerdict::ArmRetry), // attempt 1 expired → arm retry
        (false, 1, true, OVER, WAIT_OK, TimeoutVerdict::Keep),  // retry armed: wait for idle
        (false, 2, false, UNDER, WAIT_OK, TimeoutVerdict::Keep), // attempt 2 still inside the window
        (false, 2, false, OVER, WAIT_OK, TimeoutVerdict::Alert), // attempt 2 expired → ALERT once
        (true, 1, false, OVER, WAIT_OK, TimeoutVerdict::Keep),  // ACKed: the ACK clock stops
        (true, 2, false, OVER, WAIT_OK, TimeoutVerdict::Keep),
        // The waiting states are age-capped, never forever —
        // but the two waits have DIFFERENT caps.
        // Never injected: a long turn (past the ACK cap, inside the
        // turn cap) is normal for an orchestrator running subagents.
        (false, 0, false, None, WAIT_OVER, TimeoutVerdict::Keep),
        (false, 0, false, None, TURN_WAIT_OVER, TimeoutVerdict::AlertStuck), // Stop never came
        // Armed retry: the agent already finished a turn once, so the
        // shorter ACK-derived cap still applies.
        (false, 1, true, OVER, WAIT_OVER, TimeoutVerdict::AlertStuck), // idle never came
        (false, 1, true, UNDER, WAIT_OVER, TimeoutVerdict::AlertStuck), // cap ignores the injection clock
        // The cap only governs waiting states — an injected, non-retry
        // entry keeps the normal ACK clock even when it is old.
        (false, 1, false, UNDER, WAIT_OVER, TimeoutVerdict::Keep),
        (false, 2, false, OVER, WAIT_OVER, TimeoutVerdict::Alert),
        // And an ACKed entry is out of scope regardless of age.
        (true, 1, true, OVER, WAIT_OVER, TimeoutVerdict::Keep),
    ];
    for (acked, attempts, awaiting_retry, elapsed, waiting, expected) in table {
        assert_eq!(
            verdict(
                acked,
                attempts,
                awaiting_retry,
                elapsed,
                waiting,
                TIMEOUT,
                MAX_TURN_WAIT
            ),
            expected,
            "acked={acked} attempts={attempts} awaiting_retry={awaiting_retry} elapsed={elapsed:?} waiting={waiting:?}"
        );
    }
}

#[test]
fn test_timeout_boundary_is_strict() {
    // "no ACK within N seconds": exactly N is still within.
    assert_eq!(
        verdict(
            false,
            1,
            false,
            Some(TIMEOUT),
            WAIT_OK,
            TIMEOUT,
            MAX_TURN_WAIT
        ),
        TimeoutVerdict::Keep
    );
    assert_eq!(
        verdict(
            false,
            1,
            false,
            Some(TIMEOUT + Duration::from_millis(1)),
            WAIT_OK,
            TIMEOUT,
            MAX_TURN_WAIT
        ),
        TimeoutVerdict::ArmRetry
    );
    // The never-injected cap is equally strict: exactly max_turn_wait is
    // still within.
    assert_eq!(
        verdict(false, 0, false, None, MAX_TURN_WAIT, TIMEOUT, MAX_TURN_WAIT),
        TimeoutVerdict::Keep
    );
    assert_eq!(
        verdict(
            false,
            0,
            false,
            None,
            MAX_TURN_WAIT + Duration::from_millis(1),
            TIMEOUT,
            MAX_TURN_WAIT
        ),
        TimeoutVerdict::AlertStuck
    );
    // …and the armed-retry cap keeps its own strict timeout*3 boundary.
    assert_eq!(
        verdict(false, 1, true, OVER, TIMEOUT * 3, TIMEOUT, MAX_TURN_WAIT),
        TimeoutVerdict::Keep
    );
    assert_eq!(
        verdict(
            false,
            1,
            true,
            OVER,
            TIMEOUT * 3 + Duration::from_millis(1),
            TIMEOUT,
            MAX_TURN_WAIT
        ),
        TimeoutVerdict::AlertStuck
    );
}

#[test]
fn test_written_verdict_sequencing() {
    // (validating, corrective, elapsed_since_ack, expected)
    let table = [
        (false, false, None, WrittenVerdict::Keep),              // defensive: no ACK clock
        (false, false, UNDER_WINDOW, WrittenVerdict::Keep),      // inside the generous window
        (false, false, OVER_WINDOW, WrittenVerdict::Corrective), // round 1 expired → corrective
        (false, true, OVER_WINDOW, WrittenVerdict::Alert),       // corrective expired → ALERT
        (true, false, OVER_WINDOW, WrittenVerdict::Keep),        // validation owns the entry
        (true, true, OVER_WINDOW, WrittenVerdict::Keep),
    ];
    for (validating, corrective, elapsed, expected) in table {
        assert_eq!(
            written(validating, corrective, elapsed, WINDOW),
            expected,
            "validating={validating} corrective={corrective} elapsed={elapsed:?}"
        );
    }
    // Strict boundary, same discipline as the ACK timeout.
    assert_eq!(written(false, false, Some(WINDOW), WINDOW), WrittenVerdict::Keep);
    assert_eq!(
        written(
            false,
            false,
            Some(WINDOW + Duration::from_millis(1)),
            WINDOW
        ),
        WrittenVerdict::Corrective
    );
}

#[test]
fn test_marker_value_extraction() {
    assert_eq!(
        ack_value("done. <samurai-ack>handoff gen-3</samurai-ack> standing by"),
        Some("handoff gen-3".to_string())
    );
    // Inner whitespace is trimmed.
    assert_eq!(
        ack_value("<samurai-ack>\thandoff gen-3 </samurai-ack>"),
        Some("handoff gen-3".to_string())
    );
    assert_eq!(ack_value("no marker here"), None);
    assert_eq!(ack_value("<samurai-ack>unclosed"), None);
    assert_eq!(ack_value("</samurai-ack>only a close tag"), None);

    // The written marker follows the same discipline.
    assert_eq!(
        written_value("all done <samurai-handoff-written>gen-4</samurai-handoff-written>"),
        Some("gen-4".to_string())
    );
    assert_eq!(written_value("<samurai-handoff-written>unclosed"), None);
    // The tags do not cross-match.
    assert_eq!(
        written_value("<samurai-ack>handoff gen-3</samurai-ack>"),
        None
    );
    assert_eq!(
        ack_value("<samurai-handoff-written>gen-4</samurai-handoff-written>"),
        None
    );
}

#[test]
fn test_porcelain_line_classification() {
    // (line, blocks)
    let table = [
        ("?? notes.txt", false),                   // untracked: fine
        ("?? .maestro/", false),                   // the handoff dir itself
        ("!! target/", false),                     // ignored: fine
        (" M src/lib.rs", true),                   // modified tracked file
        ("M  src/lib.rs", true),                   // staged modification
        ("MM src/lib.rs", true),                   // staged + modified again
        ("A  new.rs", true),                       // staged addition
        ("D  gone.rs", true),                      // staged deletion
        (" D gone.rs", true),                      // unstaged deletion
        ("R  old.rs -> new.rs", true),             // rename
        ("UU conflicted.rs", true),                // merge conflict
        (" M .maestro/handoffs/e-gen1.md", false), // .maestro/: acceptable
        ("A  .maestro/state.json", false),
        ("", false), // blank / malformed lines never block
        ("M", false),
    ];
    for (line, expected) in table {
        assert_eq!(porcelain_line_blocks(line), expected, "line {line:?}");
    }
}

#[test]
fn test_strip_extended_prefix() {
    assert_eq!(strip_extended_prefix(r"\\?\C:\git\proj"), r"C:\git\proj");
    assert_eq!(strip_extended_prefix(r"C:\git\proj"), r"C:\git\proj");
    assert_eq!(strip_extended_prefix("/home/x"), "/home/x");
}

// --- the two checks on a handoff ---

fn status(stdout: &str) -> HandoffProbe {
    HandoffProbe::GitStatus { stdout: stdout.to_string() }
}

#[test]
fn test_validate_handoff_file_and_wip_matrix() {
    let rel = handoff_file_relpath("#9", 1);

    // File absent, tree clean: the file check fails first.
    let err = validate_handoff(&rel, &HandoffProbe::FileMissing).unwrap_err();
    assert!(err.contains("missing"), "unexpected: {err}");
    assert!(err.contains(&rel), "failure must name the path: {err}");

    // File present (untracked .maestro/), tree clean: valid, and the commit that
    // HEAD is at rides along.
    assert_eq!(validate_handoff(&rel, &status("?? .maestro/\n")), Ok(()));
    let sha = wip_head_sha(&format!("{HEAD}\n")).expect("HEAD sha");
    assert_eq!(sha.len(), 40, "full git SHA expected: {sha}");
    assert!(sha.chars().all(|c| c.is_ascii_hexdigit()));
    assert_eq!(wip_head_sha("\n"), None);

    // Extra untracked files stay acceptable.
    assert_eq!(validate_handoff(&rel, &status("?? .maestro/\n?? scratch.txt\n")), Ok(()));

    // A modified tracked file: WIP not committed.
    let err = validate_handoff(&rel, &status(" M tracked.txt\n?? .maestro/\n?? scratch.txt\n"))
        .unwrap_err();
    assert!(err.contains("WIP is not committed"), "unexpected: {err}");
    assert!(err.contains("tracked.txt"), "failure names the file: {err}");

    // Deleted again: back to the file check.
    let err = validate_handoff(&rel, &HandoffProbe::FileMissing).unwrap_err();
    assert!(err.contains("missing"), "unexpected: {err}");
}

#[test]
fn test_validate_handoff_outside_a_git_repo_fails() {
    let rel = handoff_file_relpath("#9", 1);
    let probe = HandoffProbe::GitFailed {
        stderr: "fatal: not a git repository (or any of the parent directories): .git\n".to_string(),
    };
    let err = validate_handoff(&rel, &probe).unwrap_err();
    assert!(err.contains("git status failed"), "unexpected: {err}");
    assert_eq!(
        err,
        "git status failed in the session working directory: fatal: not a git repository (or any of the parent directories): .git"
    );
}

#[test]
fn test_validation_failures_in_full() {
    assert_eq!(
        validate_handoff("a.md", &HandoffProbe::FileMissing),
        Err("the handoff file is missing at a.md".to_string())
    );
    assert_eq!(
        validate_handoff("a.md", &HandoffProbe::DirectoryUnknown),
        Err("the session's working directory is unknown".to_string())
    );
    assert_eq!(
        validate_handoff("a.md", &HandoffProbe::GitNotRun { error: "no git".to_string() }),
        Err("could not run git status in the session working directory: no git".to_string())
    );
    // The first five files are named, and no more.
    let stdout = " M a\nM  b\n?? x\nA  c\nD  d\nUU e\n M f\n";
    assert_eq!(
        validate_handoff("a.md", &status(stdout)),
        Err("WIP is not committed — modified/staged tracked files remain: M a, M  b, A  c, D  d, UU e".to_string())
    );
}

// --- the injector on its desk ---

#[test]
fn test_trigger_tick_requests_handoff_and_tracks_instruction() {
    let mut desk = Desk::new();
    desk.handoff_requested("C:/git/proj-inj-trigger", "epic-1", 2);

    assert_eq!(desk.state(1), Some(HandoffRequested));
    assert_eq!(desk.injector.pending_view(1), Some((0, false, false)));
    assert_eq!(desk.changes.len(), 1);

    // A second tick must not re-trigger (the state is no longer WORKING) nor reset
    // the pending entry.
    desk.tick();
    assert_eq!(desk.injector.pending_view(1), Some((0, false, false)));
    assert_eq!(desk.changes.len(), 1);
}

#[test]
fn test_a_session_with_no_context_reading_alerts_once() {
    let mut desk = Desk::new();
    desk.register(1, "C:/git/proj-blind", "epic-blind", 1);

    // Nine blind ticks stay quiet: a slow first assistant message must never raise
    // an alert.
    for _ in 0..(BLIND_TICKS_BEFORE_ALERT - 1) {
        desk.tick();
    }
    assert_eq!(desk.alerts("context_blind").len(), 0);

    // The tenth says it, once; further blind ticks stay silent.
    desk.tick();
    desk.tick();
    desk.tick();
    assert_eq!(desk.alerts("context_blind").len(), 1, "once per session");
    assert!(matches!(desk.rows[0].details, AuditDetails::ContextBlind { ticks: 10 }));
    assert_eq!(desk.state(1), Some(Working), "alerting never moves the session");

    // A reading arriving clears the count, so a later blind spell can alert again
    // rather than being masked by the first one.
    desk.reads(1, 10.0);
    desk.tick();
    assert!(desk.injector.blind_ticks_view(1).is_none());
}

#[test]
fn test_blindness_reattaches_the_watch_and_holds_the_alert() {
    let mut desk = Desk::new();
    desk.register(1, "C:/git/proj-blind-heal", "epic-blind", 1);
    desk.rewatch = Some(true);

    // The blindness threshold: the rewatcher heals instead of alerting, and the
    // fresh watch gets a fresh full window.
    for _ in 0..BLIND_TICKS_BEFORE_ALERT {
        desk.tick();
    }
    assert_eq!(desk.rewatched, vec![1], "one reattach at the threshold");
    assert_eq!(desk.alerts("context_blind").len(), 0, "a successful reattach holds the alert");
    assert_eq!(desk.injector.blind_ticks_view(1), Some(0), "a full fresh window");

    // Still blind a full window later: the reattach did not cure it. The alert
    // fires now, and the spell is never healed again.
    for _ in 0..BLIND_TICKS_BEFORE_ALERT {
        desk.tick();
    }
    desk.tick();
    assert_eq!(desk.rewatched, vec![1], "one heal attempt per blind spell");
    assert_eq!(desk.alerts("context_blind").len(), 1, "persistent blindness alerts once");
}

#[test]
fn test_blindness_alerts_when_the_reattach_fails() {
    let mut desk = Desk::new();
    desk.register(1, "C:/git/proj-blind-fail", "epic-blind", 1);
    desk.rewatch = Some(false);
    for _ in 0..BLIND_TICKS_BEFORE_ALERT {
        desk.tick();
    }
    desk.tick();
    assert_eq!(desk.rewatched, vec![1], "reattach was tried");
    assert_eq!(desk.alerts("context_blind").len(), 1, "a failed reattach keeps the alert, once");
}

#[test]
fn test_below_threshold_or_unknown_percent_never_triggers() {
    let mut desk = Desk::new();
    desk.register(1, "C:/git/proj-inj-low", "epic", 1);
    // Session 2 has no context reading at all.
    desk.register(2, "C:/git/proj-inj-low", "epic", 1);
    desk.reads(1, 39.9);

    desk.tick();

    assert_eq!(desk.state(1), Some(Working));
    assert_eq!(desk.state(2), Some(Working));
    assert!(desk.injector.pending_view(1).is_none());
    assert!(desk.injector.pending_view(2).is_none());
}

#[test]
fn test_handoff_trigger_uses_run_config_threshold_override() {
    let mut desk = Desk::new();
    let project = "C:/git/proj-inj-override";
    // epic-hi raises the trigger to 80%; the others keep the global value.
    desk.thresholds.push(("epic-hi".to_string(), 80.0));
    desk.register(1, project, "epic-hi", 1);
    desk.register(2, project, "epic-none", 1);
    desk.register(3, project, "epic-noconfig", 1);
    for id in [1, 2, 3] {
        desk.reads(id, 50.0);
    }

    desk.tick();

    assert_eq!(desk.state(1), Some(Working), "override holds");
    assert_eq!(desk.state(2), Some(HandoffRequested));
    assert_eq!(desk.state(3), Some(HandoffRequested));

    // And an override can lower the trigger too.
    desk.thresholds[0].1 = 40.0;
    desk.tick();
    assert_eq!(desk.state(1), Some(HandoffRequested));
}

#[test]
fn test_idle_injects_once_and_holds_until_timeout() {
    let mut desk = Desk::new();
    desk.handoff_requested("C:/git/proj-inj-idle", "epic", 3);

    // First idle: attempt 1, a single pasteable block with no submit key.
    let data = desk.idle(1).expect("must inject");
    assert!(!data.contains('\r'), "no submit key in the payload");
    assert!(!data.contains('\n'));
    assert!(data.contains("<samurai-ack>handoff gen-3</samurai-ack>"));
    // The full brief rides along: file path and written marker.
    assert!(data.contains(".maestro/handoffs/epic-gen3.md"));
    assert!(data.contains("<samurai-handoff-written>gen-3</samurai-handoff-written>"));
    assert_eq!(desk.injector.pending_view(1), Some((1, false, false)));

    // Another idle before the timeout (the agent replied without the marker): the
    // retry is not armed, so nothing is injected.
    assert!(desk.idle(1).is_none());
    assert_eq!(desk.injector.pending_view(1), Some((1, false, false)));
}

#[test]
fn test_idle_without_pending_or_before_trigger_does_nothing() {
    let mut desk = Desk::new();
    // Unsupervised session: nothing happens.
    assert!(desk.idle(9).is_none());
    // Supervised but WORKING (no trigger yet): nothing happens.
    desk.register(1, "C:/git/proj-inj-none", "epic", 1);
    assert!(desk.idle(1).is_none());
}

#[test]
fn test_ack_resolves_instruction_and_stops_injection() {
    let mut desk = Desk::new();
    desk.handoff_requested("C:/git/proj-inj-ack", "epic", 4);
    desk.idle(1).expect("attempt 1");

    // Wrong generation (e.g. a replayed old transcript line): ignored.
    desk.says(1, "<samurai-ack>handoff gen-3</samurai-ack>");
    assert_eq!(desk.injector.pending_view(1), Some((1, false, false)));

    // The real ACK: acked, the state stays HANDOFF_REQUESTED (the written marker
    // advances it), and no further idle ever injects again.
    desk.says(1, "Understood. <samurai-ack>handoff gen-4</samurai-ack>");
    assert_eq!(desk.injector.pending_view(1), Some((1, true, false)));
    assert_eq!(desk.state(1), Some(HandoffRequested));
    assert!(desk.idle(1).is_none());

    // And the timeout pass leaves an ACKed instruction alone (the written window is
    // far larger than the ACK timeout).
    desk.advance(TIMEOUT + Duration::from_secs(5));
    desk.tick();
    assert_eq!(desk.injector.pending_view(1), Some((1, true, false)));
}

#[test]
fn test_timeout_retry_then_alert_once_and_stay_for_human() {
    let mut desk = Desk::new();
    desk.handoff_requested("C:/git/proj-inj-timeout", "epic-t", 5);

    // Attempt 1 times out: the tick arms the retry.
    desk.idle(1).expect("attempt 1");
    desk.advance(TIMEOUT + Duration::from_secs(1));
    desk.tick();
    assert_eq!(desk.injector.pending_view(1), Some((1, false, true)));

    // Next idle: attempt 2; it times out too: single alert, untracked.
    desk.idle(1).expect("attempt 2");
    assert_eq!(desk.injector.pending_view(1), Some((2, false, false)));
    desk.advance(TIMEOUT + Duration::from_secs(1));
    desk.tick();

    assert!(desk.injector.pending_view(1).is_none(), "tracking stopped");
    assert_eq!(desk.state(1), Some(HandoffRequested), "it stays for human attention");
    assert!(desk.idle(1).is_none(), "no third attempt ever");

    let acks = desk.alerts("ack_timeout");
    assert_eq!(acks.len(), 1, "the alert fires exactly once");
    assert!(matches!(
        acks[0].details,
        AuditDetails::AckTimeout { attempts: 2, instruction: PendingKind::Handoff, stuck: None }
    ));
    assert_eq!(acks[0].session_id, 1);
    assert_eq!(acks[0].generation, 5);

    // Further ticks stay quiet.
    desk.tick();
    assert_eq!(desk.alerts("ack_timeout").len(), 1);
}

#[test]
fn test_pending_dropped_when_session_leaves_handoff_requested() {
    let mut desk = Desk::new();
    desk.handoff_requested("C:/git/proj-inj-dead", "epic", 1);
    assert!(desk.injector.pending_view(1).is_some());

    // The session is declared DEAD mid-handoff: the next tick drops the
    // instruction, and an idle for it injects nothing.
    desk.transition(1, Dead, None);
    desk.tick();
    assert!(desk.injector.pending_view(1).is_none());
    assert!(desk.idle(1).is_none());
}

#[test]
fn test_observe_ignores_ack_with_no_pending_instruction() {
    let mut desk = Desk::new();
    desk.register(1, "C:/git/proj-inj-stray", "epic", 1);
    // A stray marker (session still WORKING) must not create state.
    desk.says(1, "<samurai-ack>handoff gen-1</samurai-ack>");
    assert!(desk.injector.pending_view(1).is_none());
    assert_eq!(desk.state(1), Some(Working));
}

#[test]
fn test_injection_and_ack_land_inject_audit_rows() {
    let mut desk = Desk::new();
    desk.handoff_requested("C:/git/proj-inj-audit", "epic-7", 3);

    // The Stop hook lets the injection through: one row of its delivery.
    desk.hook(&stop_event(1));
    assert_eq!(desk.rows.len(), 1);
    let d = &desk.rows[0];
    assert_eq!(d.event, AuditEventKind::Inject);
    assert_eq!(d.epic, "epic-7");
    assert_eq!(d.generation, 3);
    assert_eq!(d.session_id, 1);
    let full = handoff_instruction("epic-7", 3);
    match &d.details {
        AuditDetails::Delivered { instruction, attempt, corrective, gate, excerpt, total_chars } => {
            assert_eq!(instruction.as_str(), "handoff");
            assert_eq!(*attempt, 1);
            assert!(!corrective);
            assert_eq!(*gate, Gate::StopHook);
            assert!(full.starts_with(excerpt.as_str()), "excerpt is a prefix of the text");
            assert_eq!(*total_chars, full.chars().count());
        }
        other => panic!("unexpected: {other:?}"),
    }

    // The matching ACK: one row.
    desk.says(1, "<samurai-ack>handoff gen-3</samurai-ack>");
    assert_eq!(desk.rows.len(), 2);
    let acked = &desk.rows[1];
    assert_eq!(acked.event, AuditEventKind::Inject);
    assert_eq!(acked.session_id, 1);
    assert_eq!(acked.generation, 3);
    assert!(matches!(
        acked.details,
        AuditDetails::Acked { instruction: PendingKind::Handoff, attempt: 1, corrective: false }
    ));

    // A wrong-value ACK never lands a row.
    desk.says(1, "<samurai-ack>handoff gen-99</samurai-ack>");
    assert_eq!(desk.rows.len(), 2);
}

#[test]
fn test_a_failed_delivery_is_recorded() {
    let mut desk = Desk::new();
    desk.handoff_requested("C:/git/proj-inj-undelivered-row", "epic-7", 3);
    desk.idle(1).expect("attempt 1");
    let row = desk
        .injector
        .record_delivery_outcome(1, Gate::StopHook, "x".to_string(), 1, Err("gone".to_string()))
        .unwrap();
    assert_eq!(row.event, AuditEventKind::Alert);
    match row.details {
        AuditDetails::DeliveryFailed { instruction, attempt, error } => {
            assert_eq!(instruction, PendingKind::Handoff);
            assert_eq!(attempt, 1);
            assert_eq!(error, "gone");
        }
        other => panic!("unexpected: {other:?}"),
    }
    // Nothing is recorded of a session without an instruction.
    assert!(desk
        .injector
        .record_delivery_outcome(2, Gate::StopHook, "x".to_string(), 1, Ok(()))
        .is_none());
}

#[test]
fn test_written_marker_with_valid_handoff_reaches_handoff_written() {
    let mut desk = Desk::new();
    desk.tree = Tree::Clean(format!("{HEAD}\n"));
    desk.drive_to_acked("C:/git/proj-inj-valid", 2);

    // Wrong-generation written marker: ignored, exact-value discipline.
    desk.says(1, "<samurai-handoff-written>gen-1</samurai-handoff-written>");
    assert_eq!(desk.injector.pending_detail(1), Some((false, false, None)));

    // The real marker: both checks pass, HANDOFF_WRITTEN, entry completed.
    desk.says(1, "Handoff complete. <samurai-handoff-written>gen-2</samurai-handoff-written>");
    assert_eq!(desk.state(1), Some(HandoffWritten));
    assert!(desk.injector.pending_view(1).is_none());

    // The change records where the handoff file is and the commit that the
    // validation saw.
    let (_, state, details) = desk.changes.last().unwrap();
    assert_eq!(*state, HandoffWritten);
    match details {
        Some(AuditDetails::Validated { handoff_file, wip_commit }) => {
            assert_eq!(*handoff_file, handoff_file_relpath("epic-9", 2));
            assert_eq!(wip_commit.as_deref(), Some(HEAD));
        }
        other => panic!("unexpected: {other:?}"),
    }
    assert!(!desk.rows.iter().any(|r| r.event == AuditEventKind::Alert));
}

#[test]
fn test_written_marker_before_ack_is_ignored() {
    let mut desk = Desk::new();
    desk.handoff_requested("C:/git/proj-inj-early", "epic-9", 2);
    desk.idle(1).expect("attempt 1");

    // Marker without an ACK: completion detection starts after the ACK.
    desk.says(1, "<samurai-handoff-written>gen-2</samurai-handoff-written>");
    assert_eq!(desk.injector.pending_detail(1), Some((false, false, None)));
    assert_eq!(desk.state(1), Some(HandoffRequested));
}

#[test]
fn test_invalid_handoff_arms_corrective_then_alerts() {
    let mut desk = Desk::new();
    // Handoff file present but WIP left uncommitted: the second check fails.
    desk.tree = Tree::Dirty(HEAD.to_string());
    desk.drive_to_acked("C:/git/proj-inj-invalid", 2);

    desk.says(1, "<samurai-handoff-written>gen-2</samurai-handoff-written>");

    // Validation fails: the one corrective is armed on the retry plumbing with the
    // failure recorded.
    assert!(desk.corrective(1));
    assert_eq!(desk.injector.pending_view(1), Some((1, false, true)));
    assert!(desk.failure(1).contains("WIP is not committed"));

    // Next idle injects the corrective: names the failure, demands the cycle with
    // values of its own round.
    let data = desk.idle(1).expect("corrective");
    assert!(data.contains("Handoff INVALID"));
    assert!(data.contains("WIP is not committed"));
    assert!(data.contains("<samurai-ack>handoff gen-2 retry</samurai-ack>"));
    assert!(data.contains("<samurai-handoff-written>gen-2 retry</samurai-handoff-written>"));
    assert!(!data.contains('\r') && !data.contains('\n'));

    // A replay of the first round's markers must not touch the corrective round.
    desk.says(1, "<samurai-ack>handoff gen-2</samurai-ack>");
    assert_eq!(desk.injector.pending_view(1), Some((2, false, false)));
    desk.says(1, "<samurai-handoff-written>gen-2</samurai-handoff-written>");
    assert_eq!(
        desk.injector.pending_detail(1).map(|(_, validating, _)| validating),
        Some(false),
        "a replayed written marker must not start validation"
    );

    // The corrective cycle still fails: single alert, tracking stops, the session
    // stays in HANDOFF_REQUESTED for a human.
    desk.says(1, "<samurai-ack>handoff gen-2 retry</samurai-ack>");
    desk.says(1, "<samurai-handoff-written>gen-2 retry</samurai-handoff-written>");
    assert!(desk.injector.pending_view(1).is_none());
    assert_eq!(desk.state(1), Some(HandoffRequested));

    let alerts = desk.alerts("handoff_invalid");
    assert_eq!(alerts.len(), 1, "the alert fires exactly once");
    match &alerts[0].details {
        AuditDetails::Invalid { failure, .. } => assert!(failure.contains("WIP is not committed")),
        other => panic!("unexpected: {other:?}"),
    }
    assert_eq!(alerts[0].generation, 2);
    assert_eq!(alerts[0].session_id, 1);
}

#[test]
fn test_corrective_round_can_still_succeed() {
    let mut desk = Desk::new();
    // First round: file missing entirely.
    desk.tree = Tree::Missing;
    desk.drive_to_acked("C:/git/proj-inj-fix", 2);
    desk.says(1, "<samurai-handoff-written>gen-2</samurai-handoff-written>");
    assert!(desk.corrective(1));
    desk.idle(1).expect("corrective");

    // The orchestrator fixes it: writes the file, acknowledges and reports anew.
    desk.tree = Tree::Clean(HEAD.to_string());
    desk.says(1, "<samurai-ack>handoff gen-2 retry</samurai-ack>");
    desk.says(1, "<samurai-handoff-written>gen-2 retry</samurai-handoff-written>");
    assert_eq!(desk.state(1), Some(HandoffWritten));
    assert!(desk.injector.pending_view(1).is_none());
}

#[test]
fn test_written_window_timeout_arms_corrective_then_alerts() {
    let mut desk = Desk::new();
    desk.drive_to_acked("C:/git/proj-inj-wtimeout", 5);

    // ACKed but the written marker never arrives: past the window the tick arms the
    // corrective (no alert: first round).
    desk.advance(WINDOW + Duration::from_secs(1));
    desk.tick();
    assert_eq!(desk.injector.pending_view(1), Some((1, false, true)));
    assert!(desk.corrective(1));
    assert!(desk.failure(1).contains("did not arrive"));

    // Corrective injected and acknowledged, and the marker never comes again.
    desk.idle(1).expect("corrective");
    desk.says(1, "<samurai-ack>handoff gen-5 retry</samurai-ack>");
    desk.advance(WINDOW + Duration::from_secs(1));
    desk.tick();

    assert!(desk.injector.pending_view(1).is_none(), "tracking stopped");
    assert_eq!(desk.state(1), Some(HandoffRequested));
    let alerts = desk.alerts("handoff_invalid");
    assert_eq!(alerts.len(), 1);
    match &alerts[0].details {
        AuditDetails::Invalid { failure, .. } => assert!(failure.contains("did not arrive")),
        other => panic!("unexpected: {other:?}"),
    }
}

#[test]
fn test_corrective_never_acked_alerts_handoff_invalid() {
    let mut desk = Desk::new();
    desk.drive_to_acked("C:/git/proj-inj-cack", 3);

    // Written window expires: corrective armed and injected.
    desk.advance(WINDOW + Duration::from_secs(1));
    desk.tick();
    desk.idle(1).expect("corrective");

    // The corrective itself is never ACKed: the second attempt's timeout fires, but
    // as handoff_invalid, not ack_timeout.
    desk.advance(TIMEOUT + Duration::from_secs(1));
    desk.tick();

    assert!(desk.injector.pending_view(1).is_none());
    assert_eq!(desk.state(1), Some(HandoffRequested));
    assert!(desk.alerts("ack_timeout").is_empty());
    let alerts = desk.alerts("handoff_invalid");
    assert_eq!(alerts.len(), 1);
    match &alerts[0].details {
        AuditDetails::Invalid { failure, .. } => assert!(failure.contains("never acknowledged")),
        other => panic!("unexpected: {other:?}"),
    }
}

#[test]
fn test_unknown_working_dir_walks_the_failure_path() {
    let mut desk = Desk::new();
    // No directory is known: the validation cannot run, and that is a failure of
    // the first round.
    desk.drive_to_acked("C:/git/proj-inj-nodir", 2);
    desk.says(1, "<samurai-handoff-written>gen-2</samurai-handoff-written>");
    assert!(desk.corrective(1));
    assert!(desk.failure(1).contains("working directory is unknown"));
}

#[test]
fn test_trigger_injects_immediately_when_session_already_idle() {
    let mut desk = Desk::new();
    desk.register(1, "C:/git/proj-inj-preidle", "epic", 3);
    desk.reads(1, 50.0);

    // The last signal was a Stop before the trigger: the same tick that triggers
    // must inject.
    desk.hook(&stop_event(1));
    desk.tick();
    assert_eq!(desk.injector.pending_view(1), Some((1, false, false)));

    // The injection consumed the idle flag: the next tick does not double-inject.
    desk.tick();
    assert_eq!(desk.injector.pending_view(1), Some((1, false, false)));
}

#[test]
fn test_activity_after_stop_clears_the_idle_flag() {
    let mut desk = Desk::new();
    desk.register(1, "C:/git/proj-inj-active", "epic", 3);
    desk.reads(1, 50.0);

    // Stop, then a tool call: the turn restarted, so the trigger tick must go back
    // to waiting for the next idle signal.
    desk.hook(&stop_event(1));
    desk.hook(&AgentEvent::ToolUseStarted { session_id: 1 });
    desk.tick();
    assert_eq!(desk.injector.pending_view(1), Some((0, false, false)));

    // The real idle signal then injects as usual.
    desk.hook(&stop_event(1));
    assert_eq!(desk.injector.pending_view(1), Some((1, false, false)));
}

#[test]
fn test_tick_injects_armed_retry_when_already_idle() {
    let mut desk = Desk::new();
    desk.register(1, "C:/git/proj-inj-ridle", "epic", 3);
    desk.reads(1, 50.0);
    desk.hook(&stop_event(1));
    desk.tick(); // trigger + immediate attempt 1

    // The agent replies without the marker (its Stop re-marks idle), attempt 1
    // times out: the same tick arms the retry and injects attempt 2.
    desk.hook(&stop_event(1));
    desk.advance(TIMEOUT + Duration::from_secs(1));
    desk.tick();
    assert_eq!(desk.injector.pending_view(1), Some((2, false, false)));
}

#[test]
fn test_corrective_injects_at_tick_when_already_idle() {
    let mut desk = Desk::new();
    // No handoff file written: the first check will fail.
    desk.tree = Tree::Missing;
    desk.drive_to_acked("C:/git/proj-inj-cidle", 2);

    // The written-marker turn ended with a Stop, which the transcript's late
    // message must not clear. Validation fails, the corrective is armed, and the
    // next tick injects it without any new Stop ever arriving.
    desk.hook(&stop_event(1));
    desk.says(1, "<samurai-handoff-written>gen-2</samurai-handoff-written>");
    assert!(desk.corrective(1));
    assert_eq!(desk.injector.pending_view(1), Some((1, false, true)));

    desk.tick();
    assert_eq!(
        desk.injector.pending_view(1),
        Some((2, false, false)),
        "tick injected the corrective into the already-idle session"
    );
    let text = desk.injector.pending_instruction(1).unwrap();
    assert!(text.contains("Handoff INVALID"));
}

#[test]
fn test_never_idled_session_alerts_after_wait_cap() {
    let mut desk = Desk::new();
    desk.handoff_requested("C:/git/proj-inj-wedged", "epic-w", 4);
    assert_eq!(desk.injector.pending_view(1), Some((0, false, false)));

    // Inside the cap: kept, still waiting. A long turn is normal for an orchestrator
    // running subagents.
    desk.tick();
    assert!(desk.injector.pending_view(1).is_some());
    desk.advance(WAIT_OVER);
    desk.tick();
    assert!(desk.injector.pending_view(1).is_some(), "a long turn is not a stall");
    assert!(desk.alerts("ack_timeout").is_empty());

    // Past the cap with no injection possible: a single alert, and tracking
    // continues.
    desk.advance(TURN_WAIT_OVER);
    desk.tick();
    assert!(desk.injector.pending_view(1).is_some(), "still tracked after the alert");
    assert_eq!(desk.state(1), Some(HandoffRequested));

    let alerts = desk.alerts("ack_timeout");
    assert_eq!(alerts.len(), 1, "the alert fires exactly once");
    assert!(matches!(
        alerts[0].details,
        AuditDetails::AckTimeout { attempts: 0, stuck: Some(StuckWait::NeverIdled), .. }
    ));

    // Further ticks stay quiet: the alert is latched.
    desk.tick();
    assert_eq!(desk.alerts("ack_timeout").len(), 1);

    // The parker must not count a stuck entry as pending.
    assert!(!desk.injector.has_pending(1), "stuck entry does not block a sweep");

    // The long turn finally ends: the instruction goes in after all, and the entry
    // counts as live again.
    assert!(desk.idle(1).is_some(), "late idle delivers");
    assert_eq!(desk.injector.pending_view(1), Some((1, false, false)));
    assert!(desk.injector.has_pending(1), "live again once injected");
}

#[test]
fn test_armed_retry_that_never_injects_alerts_after_wait_cap() {
    let mut desk = Desk::new();
    desk.handoff_requested("C:/git/proj-inj-noidle", "epic-n", 2);

    // Attempt 1 times out: retry armed; idle then never comes.
    desk.idle(1).expect("attempt 1");
    desk.advance(TIMEOUT + Duration::from_secs(1));
    desk.tick();
    assert_eq!(desk.injector.pending_view(1), Some((1, false, true)));

    // An armed retry keeps the shorter cap.
    desk.advance(WAIT_OVER);
    desk.tick();
    assert!(desk.injector.pending_view(1).is_some(), "still tracked after the alert");

    let alerts = desk.alerts("ack_timeout");
    assert_eq!(alerts.len(), 1);
    assert!(matches!(
        alerts[0].details,
        AuditDetails::AckTimeout { attempts: 1, stuck: Some(StuckWait::RetryNeverInjected), .. }
    ));

    // The retry still lands when the idle finally arrives.
    assert!(!desk.injector.has_pending(1), "stuck entry does not block a sweep");
    assert!(desk.idle(1).is_some(), "late idle delivers");
    assert_eq!(desk.injector.pending_view(1), Some((2, false, false)));
}

#[test]
fn test_remove_session_drops_pending_and_idle_state() {
    let mut desk = Desk::new();
    desk.register(1, "C:/git/proj-inj-teardown", "epic", 1);
    desk.reads(1, 50.0);
    desk.hook(&stop_event(1)); // idle flag set
    desk.tick(); // trigger + immediate injection (attempt 1)
    assert!(desk.injector.pending_view(1).is_some());

    // The terminal is closed: session and injector state both go.
    desk.sessions.clear();
    desk.injector.remove_session(1);

    assert!(desk.injector.pending_view(1).is_none());
    assert!(!desk.injector.is_idle(1));
    assert!(desk.idle(1).is_none());
    // The tick no longer sees the session: nothing is recreated.
    desk.tick();
    assert!(desk.injector.pending_view(1).is_none());
}

#[test]
fn test_park_ladder_validates_and_reaches_parked() {
    let mut desk = Desk::new();
    desk.tree = Tree::Clean(HEAD.to_string());
    desk.drive_to_park_requested("C:/git/proj-inj-park", 2);

    // The park instruction rides the same ladder with its own markers and the
    // standard handoff path (the file doubles as park state).
    let data = desk.idle(1).expect("park attempt 1");
    assert!(data.contains("<samurai-ack>park gen-2</samurai-ack>"));
    assert!(data.contains(".maestro/handoffs/epic-9-gen2.md"));
    assert!(data.contains("<samurai-handoff-written>gen-2 park</samurai-handoff-written>"));
    assert!(!data.contains('\r') && !data.contains('\n'));

    // A replayed handoff ACK for the same generation must not ACK the park, and a
    // replayed handoff written marker must not start its validation.
    desk.says(1, "<samurai-ack>handoff gen-2</samurai-ack>");
    assert_eq!(desk.injector.pending_view(1), Some((1, false, false)));
    desk.says(1, "Parking. <samurai-ack>park gen-2</samurai-ack>");
    assert_eq!(desk.injector.pending_view(1), Some((1, true, false)));
    desk.says(1, "<samurai-handoff-written>gen-2</samurai-handoff-written>");
    assert_eq!(
        desk.injector.pending_detail(1).map(|(_, validating, _)| validating),
        Some(false),
        "a handoff written value must not validate a park"
    );

    // The real park marker: PARKED, entry completed.
    desk.says(1, "<samurai-handoff-written>gen-2 park</samurai-handoff-written>");
    assert_eq!(desk.state(1), Some(Parked));
    assert!(desk.injector.pending_view(1).is_none());
    let states: Vec<SupervisorState> = desk.changes.iter().map(|c| c.1).collect();
    assert_eq!(states, vec![ParkRequested, Parked]);
    assert!(!desk.rows.iter().any(|r| r.event == AuditEventKind::Alert));
}

#[test]
fn test_invalid_park_arms_corrective_then_alerts_park_invalid() {
    let mut desk = Desk::new();
    desk.tree = Tree::Dirty(HEAD.to_string());
    desk.drive_to_park_requested("C:/git/proj-inj-park-bad", 2);

    desk.idle(1).expect("park attempt 1");
    desk.says(1, "<samurai-ack>park gen-2</samurai-ack>");
    desk.says(1, "<samurai-handoff-written>gen-2 park</samurai-handoff-written>");

    // Validation fails: the one corrective, with the park's wording and markers.
    assert!(desk.corrective(1));
    let data = desk.idle(1).expect("corrective");
    assert!(data.contains("Park INVALID"));
    assert!(data.contains("WIP is not committed"));
    assert!(data.contains("<samurai-ack>park gen-2 retry</samurai-ack>"));
    assert!(data.contains("<samurai-handoff-written>gen-2 park retry</samurai-handoff-written>"));

    // The corrective cycle fails too: a single park_invalid alert; the session stays
    // in PARK_REQUESTED.
    desk.says(1, "<samurai-ack>park gen-2 retry</samurai-ack>");
    desk.says(1, "<samurai-handoff-written>gen-2 park retry</samurai-handoff-written>");
    assert!(desk.injector.pending_view(1).is_none());
    assert_eq!(desk.state(1), Some(ParkRequested));

    let alerts = desk.alerts("park_invalid");
    assert_eq!(alerts.len(), 1, "the alert fires exactly once");
    match &alerts[0].details {
        AuditDetails::Invalid { failure, .. } => assert!(failure.contains("WIP is not committed")),
        other => panic!("unexpected: {other:?}"),
    }
}

#[test]
fn test_soft_winddown_ack_completes_without_any_transition() {
    let mut desk = Desk::new();
    desk.register(1, "C:/git/proj-inj-soft", "epic-9", 3);

    assert!(desk.soft_winddown());
    // A second wind-down while one is pending is refused.
    assert!(!desk.soft_winddown());

    // Injected on idle while the session stays WORKING; the text carries the
    // wind-down ACK and no written marker.
    let data = desk.idle(1).expect("attempt 1");
    assert!(data.contains("<samurai-ack>winddown gen-3-1</samurai-ack>"));
    assert!(!data.contains("<samurai-handoff-written>"));
    assert_eq!(desk.state(1), Some(Working));

    // The ACK alone completes the entry: no state change, and a later idle injects
    // nothing.
    desk.says(1, "Winding down. <samurai-ack>winddown gen-3-1</samurai-ack>");
    assert!(desk.injector.pending_view(1).is_none());
    assert_eq!(desk.state(1), Some(Working));
    assert!(desk.idle(1).is_none());
    assert_eq!(desk.rows.len(), 1, "the acknowledgement only");
    assert_eq!(desk.rows[0].event, AuditEventKind::Inject);
    assert!(matches!(
        desk.rows[0].details,
        AuditDetails::Acked { instruction: PendingKind::SoftWinddown, .. }
    ));
    assert!(desk.changes.is_empty());
}

#[test]
fn test_soft_winddown_timeout_alerts_ack_timeout_and_stops() {
    let mut desk = Desk::new();
    desk.register(1, "C:/git/proj-inj-soft-to", "epic-9", 3);
    assert!(desk.soft_winddown());

    // Attempt 1 times out: retry; attempt 2 times out: alert, done.
    desk.idle(1).expect("attempt 1");
    desk.advance(TIMEOUT + Duration::from_secs(1));
    desk.tick();
    assert_eq!(desk.injector.pending_view(1), Some((1, false, true)));
    desk.idle(1).expect("attempt 2");
    desk.advance(TIMEOUT + Duration::from_secs(1));
    desk.tick();

    assert!(desk.injector.pending_view(1).is_none(), "tracking stopped");
    assert_eq!(desk.state(1), Some(Working));
    let alerts = desk.alerts("ack_timeout");
    assert_eq!(alerts.len(), 1);
    match &alerts[0].details {
        AuditDetails::AckTimeout { instruction, .. } => {
            assert_eq!(instruction.as_str(), "soft_winddown");
        }
        other => panic!("unexpected: {other:?}"),
    }
}

#[test]
fn test_winddown_allclear_ack_completes_without_any_transition() {
    let mut desk = Desk::new();
    desk.register(1, "C:/git/proj-inj-allclear", "epic-9", 3);

    // The episode: a wind-down delivered and acked.
    assert!(desk.soft_winddown());
    desk.idle(1).expect("winddown attempt");
    desk.says(1, "<samurai-ack>winddown gen-3-1</samurai-ack>");
    assert!(desk.injector.pending_view(1).is_none());

    // Recovery: the all-clear arms, injects on idle, and is ack-only.
    assert!(desk.allclear());
    let data = desk.idle(1).expect("allclear attempt");
    assert!(data.contains("<samurai-ack>allclear gen-3-1</samurai-ack>"));
    assert!(!data.contains("<samurai-handoff-written>"));
    assert_eq!(desk.state(1), Some(Working));

    // The ACK alone completes it.
    desk.says(1, "Back to full speed. <samurai-ack>allclear gen-3-1</samurai-ack>");
    assert!(desk.injector.pending_view(1).is_none());
    assert_eq!(desk.state(1), Some(Working));
    assert!(desk.idle(1).is_none());
    assert_eq!(desk.rows.len(), 2, "wind-down ack + all-clear ack");
    match &desk.rows[1].details {
        AuditDetails::Acked { instruction, .. } => {
            assert_eq!(instruction.as_str(), "winddown_allclear");
        }
        other => panic!("unexpected: {other:?}"),
    }
}

#[test]
fn test_a_refused_winddown_opens_no_episode() {
    let mut desk = Desk::new();
    desk.register(1, "C:/git/p", "epic-9", 3);
    assert!(desk.soft_winddown());
    assert!(!desk.soft_winddown());
    assert_eq!(desk.injector.winddown_episodes(1), 1);
    desk.hook(&stop_event(1));
    assert!(desk.allclear());
    desk.hook(&stop_event(1));
    let text = &desk.typed.last().unwrap().1;
    assert!(text.contains("<samurai-ack>allclear gen-3-1</samurai-ack>"));
}

#[test]
fn test_winddown_allclear_supersedes_only_a_delivered_winddown() {
    let mut desk = Desk::new();
    desk.register(1, "C:/git/proj-inj-allclear2", "epic-9", 2);

    // Delivered but not yet acked: the all-clear replaces it.
    assert!(desk.soft_winddown());
    desk.idle(1).expect("winddown delivered");
    assert!(desk.allclear());
    let data = desk.idle(1).expect("allclear attempt");
    assert!(data.contains("<samurai-ack>allclear gen-2-1</samurai-ack>"));
    assert!(!data.contains("winddown"));
    desk.says(1, "<samurai-ack>allclear gen-2-1</samurai-ack>");

    // Any other pending instruction refuses the all-clear outright.
    desk.park();
    assert!(!desk.allclear());
    let data = desk.idle(1).expect("park attempt");
    assert!(data.contains("<samurai-ack>park gen-2</samurai-ack>"));
}

#[test]
fn test_winddown_allclear_cancels_an_undelivered_winddown_silently() {
    let mut desk = Desk::new();
    desk.register(1, "C:/git/proj-inj-allclear3", "epic-9", 2);

    // Armed but never injected: there is nothing to clear. The stale entry is
    // cancelled and nothing is sent.
    assert!(desk.soft_winddown());
    assert!(!desk.allclear());
    assert!(desk.injector.pending_view(1).is_none(), "stale wind-down cancelled");
    assert!(desk.idle(1).is_none());
}

#[test]
fn test_begin_soft_winddown_supersedes_a_pending_winddown_allclear() {
    let mut desk = Desk::new();
    desk.register(1, "C:/git/proj-inj-super2", "epic-9", 2);

    // Episode 1: delivered and acked wind-down, then the all-clear arms but is never
    // acked.
    assert!(desk.soft_winddown());
    desk.idle(1).expect("winddown delivered");
    desk.says(1, "<samurai-ack>winddown gen-2-1</samurai-ack>");
    assert!(desk.allclear());
    assert!(desk.injector.has_pending(1), "the all-clear is armed, un-acked");

    // Episode 2's wind-down supersedes the stale all-clear outright.
    assert!(desk.soft_winddown());
    let data = desk.idle(1).expect("the new wind-down attempt");
    assert!(data.contains("<samurai-ack>winddown gen-2-2</samurai-ack>"));
    assert!(!data.contains("allclear"));

    // Any other pending instruction still refuses a new wind-down outright.
    desk.says(1, "<samurai-ack>winddown gen-2-2</samurai-ack>");
    assert!(desk.injector.pending_view(1).is_none());
    desk.park();
    assert!(!desk.soft_winddown());
}

#[test]
fn test_begin_park_supersedes_a_pending_soft_winddown() {
    let mut desk = Desk::new();
    desk.register(1, "C:/git/proj-inj-super", "epic-9", 2);
    assert!(desk.soft_winddown());
    assert!(desk.injector.has_pending(1));

    // The park replaces the wind-down entry.
    desk.park();
    let data = desk.idle(1).expect("park attempt 1");
    assert!(data.contains("<samurai-ack>park gen-2</samurai-ack>"));
    assert!(!data.contains("winddown"));
}

#[test]
fn test_scan_ack_ignores_an_undelivered_instruction() {
    let mut desk = Desk::new();
    desk.register(1, "C:/git/proj-inj-undelivered", "epic-9", 5);

    assert!(desk.soft_winddown());
    assert!(desk.injector.has_pending(1));
    // No idle signal: it was never typed.
    desk.says(1, "<samurai-ack>winddown gen-5-1</samurai-ack>");
    assert!(desk.injector.has_pending(1), "an undelivered instruction is not acked");

    // The normal path still works once actually delivered.
    desk.idle(1).expect("now delivered");
    desk.says(1, "<samurai-ack>winddown gen-5-1</samurai-ack>");
    assert!(desk.injector.pending_view(1).is_none(), "the real ack completes it");
}

#[test]
fn test_scan_ack_replay_of_an_earlier_episode_cannot_complete_a_later_one() {
    let mut desk = Desk::new();
    desk.register(1, "C:/git/proj-inj-replay", "epic-9", 5);

    // Episode 1: delivered and genuinely acked.
    assert!(desk.soft_winddown());
    desk.idle(1).expect("episode 1 delivered");
    desk.says(1, "<samurai-ack>winddown gen-5-1</samurai-ack>");
    assert!(desk.injector.pending_view(1).is_none());

    // Episode 2: a fresh wind-down, delivered.
    assert!(desk.soft_winddown());
    let data = desk.idle(1).expect("episode 2 delivered");
    assert!(data.contains("<samurai-ack>winddown gen-5-2</samurai-ack>"));

    // Episode 1's old line resurfaces.
    desk.says(1, "<samurai-ack>winddown gen-5-1</samurai-ack>");
    assert!(desk.injector.has_pending(1), "an earlier episode's ack completes nothing");

    // Episode 2's own value still completes it.
    desk.says(1, "<samurai-ack>winddown gen-5-2</samurai-ack>");
    assert!(desk.injector.pending_view(1).is_none(), "the real ack completes it");
}

// --- values and paths ---

#[test]
fn test_expected_values_of_each_kind_and_round() {
    let handoff = PendingKind::Handoff;
    let park = PendingKind::Park;
    assert_eq!(expected_ack_value(handoff, 7, false, 0), "handoff gen-7");
    assert_eq!(expected_ack_value(handoff, 7, true, 0), "handoff gen-7 retry");
    assert_eq!(expected_ack_value(park, 7, false, 0), "park gen-7");
    assert_eq!(expected_ack_value(park, 7, true, 0), "park gen-7 retry");
    assert_eq!(expected_ack_value(PendingKind::SoftWinddown, 7, false, 4), "winddown gen-7-4");
    assert_eq!(expected_ack_value(PendingKind::WinddownAllClear, 7, false, 4), "allclear gen-7-4");
    assert_eq!(expected_written_value(handoff, 7, false).as_deref(), Some("gen-7"));
    assert_eq!(expected_written_value(handoff, 7, true).as_deref(), Some("gen-7 retry"));
    assert_eq!(expected_written_value(park, 7, false).as_deref(), Some("gen-7 park"));
    assert_eq!(expected_written_value(park, 7, true).as_deref(), Some("gen-7 park retry"));
    assert_eq!(expected_written_value(PendingKind::SoftWinddown, 7, false), None);
}

#[test]
fn test_correctives_carry_the_values_of_their_round() {
    let text = corrective_instruction_for(PendingKind::Park, "#9", 7, "no file", 0);
    assert!(text.contains("no file"));
    assert_eq!(
        ack_value(&text).unwrap(),
        expected_ack_value(PendingKind::Park, 7, true, 0)
    );
    assert_eq!(written_value(&text), expected_written_value(PendingKind::Park, 7, true));
}

#[test]
fn test_marker_value_takes_the_first_closed_pair() {
    assert_eq!(marker_value("<a>x</a><a>y</a>", "a").as_deref(), Some("x"));
    assert_eq!(marker_value("</a><a> é </a>", "a").as_deref(), Some("é"));
    assert_eq!(marker_value("<a></a>", "a").as_deref(), Some(""));
}

#[test]
fn test_sessions_do_not_disturb_each_other_on_the_desk() {
    let mut desk = Desk::new();
    desk.register(1, "/p", "a", 1);
    desk.register(2, "/p", "b", 1);
    desk.reads(1, 50.0);
    desk.reads(2, 50.0);
    desk.tick();
    desk.idle(1).expect("session 1");
    desk.says(1, "<samurai-ack>handoff gen-1</samurai-ack>");
    assert_eq!(desk.injector.pending_view(1), Some((1, true, false)));
    assert_eq!(desk.injector.pending_view(2), Some((0, false, false)));
    desk.injector.remove_session(1);
    assert_eq!(desk.injector.pending_view(2), Some((0, false, false)));
}

#[test]
fn test_a_winddown_is_blocked_by_all_but_an_allclear() {
    let mut desk = Desk::new();
    desk.register(1, "/p", "a", 1);
    assert!(!desk.injector.blocks_soft_winddown(1));
    assert!(desk.soft_winddown());
    assert!(desk.injector.blocks_soft_winddown(1));
    desk.idle(1).expect("delivered");
    assert!(desk.allclear());
    assert!(!desk.injector.blocks_soft_winddown(1));
}

#[test]
fn test_normalizing_a_project_twice_changes_nothing() {
    for path in [r"\\?\C:\git\proj\", "C:/git/proj", r"\\?\UNC\host\share\x", "/home/x/", ""] {
        let once = normalize_project(path);
        assert_eq!(normalize_project(&once), once, "{path}");
    }
}
