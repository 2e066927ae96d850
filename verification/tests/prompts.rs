//! Instruction builders, markers, handoff files and run references.

use samurai::handoff_file::{
    ref_slug, epic_slug, handoff_file_relpath, handoff_head_sha, parse_handoff_generation,
    recovery_digest_relpath,
};
use samurai::marker_values::{
    handoff_ack_retry_value, handoff_ack_value, handoff_written_retry_value,
    handoff_written_value, park_ack_retry_value, park_ack_value, park_written_retry_value,
    park_written_value, soft_winddown_ack_value, winddown_allclear_ack_value,
};
use samurai::prompt_text::{ORDER_ALERT_TAG, RUN_COMPLETE_TAG};
use samurai::prompts::{
    handoff_corrective_instruction, handoff_instruction, is_issue_list, journal_instruction,
    launch_instruction, park_corrective_instruction, park_instruction,
    recovery_ritual_instruction, soft_winddown_instruction, successor_ritual_instruction,
    successor_session_name, winddown_allclear_instruction,
};
use samurai::ladder::{ack_value, written_value};
use samurai::run_refs::RunRefs;

/// A compiled workflow of the shape that callers pass.
fn wf() -> String {
    "Step 1: Work the run's issues strictly ONE at a time, each on this branch. \
     Step 2: Run a fresh-eyes review of the finished issue. \
     Step 3: Write a QA report for the issue and commit it. \
     Step 4: Push the branch. \
     Step 5: After ALL issues are done, read the whole diff once more. \
     Step 6: Run a batch QA pass using the committed per-issue QA reports. \
     Step 7: Open or finalize the run's pull request and leave it for the HUMAN merge decision."
        .to_string()
}

#[test]
fn test_instruction_is_a_single_pasteable_line() {
    // write_stdin types this into a terminal: any embedded newline would
    // submit a partial instruction. The trailing \r is the injector's job.
    let text = handoff_instruction("#37", 3);
    assert!(!text.contains('\n'), "instruction must not contain \\n");
    assert!(!text.contains('\r'), "instruction must not contain \\r");
    assert!(!text.is_empty());
}

#[test]
fn test_instruction_carries_the_exact_ack_marker() {
    let text = handoff_instruction("#37", 7);
    assert!(text.contains("<samurai-ack>handoff gen-7</samurai-ack>"));
    // And it says what is happening: this is a handoff request.
    assert!(text.to_lowercase().contains("handoff requested"));
}

#[test]
fn test_ack_value_encodes_the_generation() {
    assert_eq!(handoff_ack_value(1), "handoff gen-1");
    assert_eq!(handoff_ack_value(42), "handoff gen-42");
}

#[test]
fn test_written_value_encodes_the_generation() {
    assert_eq!(handoff_written_value(1), "gen-1");
    assert_eq!(handoff_written_value(42), "gen-42");
}

#[test]
fn test_retry_values_are_round_scoped_and_distinct() {
    assert_eq!(handoff_ack_retry_value(3), "handoff gen-3 retry");
    assert_eq!(handoff_written_retry_value(3), "gen-3 retry");
    assert_ne!(handoff_ack_retry_value(3), handoff_ack_value(3));
    assert_ne!(handoff_written_retry_value(3), handoff_written_value(3));
}

#[test]
fn test_epic_slug_is_filesystem_safe() {
    assert_eq!(epic_slug("#37"), "37");
    assert_eq!(
        epic_slug("https://github.com/o/r/issues/9"),
        "https-github-com-o-r-issues-9"
    );
    assert_eq!(epic_slug("Epic 12: Auth"), "epic-12-auth");
    assert_eq!(epic_slug("epic-12"), "epic-12");
    // Nothing usable falls back rather than producing an empty filename.
    assert_eq!(epic_slug(""), "epic");
    assert_eq!(epic_slug("###"), "epic");
    // No leading/trailing separators, no runs.
    assert_eq!(epic_slug("--a//b--"), "a-b");
}

#[test]
fn test_handoff_file_relpath_shape() {
    assert_eq!(
        handoff_file_relpath("#37", 2),
        ".maestro/handoffs/37-gen2.md"
    );
    assert_eq!(
        handoff_file_relpath("Epic 12", 10),
        ".maestro/handoffs/epic-12-gen10.md"
    );
}

#[test]
fn test_parse_handoff_generation_roundtrips_the_relpath() {
    // The parser must accept exactly what handoff_file_relpath produces.
    for (epic, generation) in [("#37", 1), ("#37", 42), ("Epic 12: Auth", 10), ("", 3)] {
        let relpath = handoff_file_relpath(epic, generation);
        let filename = relpath.rsplit('/').next().unwrap();
        assert_eq!(
            parse_handoff_generation(filename),
            Some(generation),
            "roundtrip failed for {relpath}"
        );
    }
    // A slug that itself contains `-gen<digits>`: the LAST -gen wins.
    assert_eq!(parse_handoff_generation("x-gen5-gen2.md"), Some(2));
}

#[test]
fn test_parse_handoff_generation_rejects_non_handoffs() {
    // Recovery digests are not handoffs.
    assert_eq!(parse_handoff_generation("37-gen3-recovery.md"), None);
    // Missing/garbled pieces.
    assert_eq!(parse_handoff_generation("37-gen.md"), None);
    assert_eq!(parse_handoff_generation("37-gen2"), None); // no .md
    assert_eq!(parse_handoff_generation("37-gen2x.md"), None);
    assert_eq!(parse_handoff_generation("37.md"), None);
    assert_eq!(parse_handoff_generation(""), None);
    // Overflow parses as None rather than panicking.
    assert_eq!(
        parse_handoff_generation("37-gen99999999999999999999.md"),
        None
    );
}

// --- wind-down all-clear ---

#[test]
fn test_winddown_allclear_is_ack_only_with_kind_scoped_marker() {
    // Kind-scoped: no other instruction's ACK (nor a replay of the
    // wind-down's own) may satisfy the all-clear.
    assert_eq!(winddown_allclear_ack_value(4), "allclear gen-4");
    assert_ne!(winddown_allclear_ack_value(4), soft_winddown_ack_value(4));
    assert_ne!(winddown_allclear_ack_value(4), handoff_ack_value(4));
    assert_ne!(winddown_allclear_ack_value(4), park_ack_value(4));

    let text = winddown_allclear_instruction(4);
    assert!(!text.contains('\n'), "all-clear must be single-line");
    assert!(text.contains("<samurai-ack>allclear gen-4</samurai-ack>"));
    // Ack-only: it lifts the wind-down (subagents allowed again) and
    // demands no file and no written marker.
    assert!(text.contains("spawn subagents again"));
    assert!(text.contains("No file needs to be written"));
    assert!(!text.contains("<samurai-handoff-written>"));
    assert!(text.contains("Never quote, restate, or echo"));
}

// --- local-only scheduling prohibition (drift guard) ---

#[test]
fn test_every_orchestrator_brief_forbids_cloud_scheduling() {
    let texts = [
        launch_instruction(&RunRefs::epics_only("#37"), Some("o/r"), &wf()),
        successor_ritual_instruction("#37", 2, true, &wf()),
        successor_ritual_instruction("#37", 2, false, &wf()),
        recovery_ritual_instruction("#37", 2, Some("o/r"), &wf()),
        park_instruction("#37", 2),
        soft_winddown_instruction(2),
    ];
    for text in texts {
        assert!(
            text.contains("NEVER create cloud-scheduled agents"),
            "missing cloud-scheduling prohibition: {text}"
        );
        assert!(
            text.contains("/schedule"),
            "prohibition must name the /schedule escape hatch: {text}"
        );
        assert!(
            text.contains("waiting and rescheduling is MAESTRO'S job"),
            "prohibition must say waiting is Maestro's job: {text}"
        );
        assert!(!text.contains('\n'), "brief must stay single-line");
    }
}

// --- exactly ONE canonical handoff path ---

#[test]
fn test_file_writing_instructions_forbid_inventing_another_handoff_path() {
    // A live gen-1 wrote `HANDOFF-…-gen-1.md` at the worktree ROOT —
    // invisible to the Second Brain files panel and unparseable on
    // resume. Both file-writing instructions must pin the canonical
    // path and forbid any other name or location outright.
    for text in [handoff_instruction("#37", 2), park_instruction("#37", 2)] {
        assert!(text.contains(".maestro/handoffs/37-gen2.md"));
        assert!(
            text.contains("EXACTLY this repo-relative path"),
            "missing exact-path pin: {text}"
        );
        assert!(
            text.contains("never a HANDOFF-*.md at the repo root"),
            "missing root-convention prohibition: {text}"
        );
    }
}

#[test]
fn test_correctives_direct_a_move_to_the_exact_expected_path() {
    // The validator is the enforcement point (#119): when the file is
    // missing, the corrective must CORRECT a deviating agent — name the
    // exact expected path and tell it to move a misplaced handoff there
    // — not just restate the checks.
    for text in [
        handoff_corrective_instruction("#37", 4, "the handoff file is missing"),
        park_corrective_instruction("#37", 4, "the handoff file is missing"),
    ] {
        assert!(text.contains(".maestro/handoffs/37-gen4.md"));
        assert!(
            text.contains("MOVE it to exactly .maestro/handoffs/37-gen4.md"),
            "missing move-to-canonical-path correction: {text}"
        );
    }
}

#[test]
fn test_parse_handoff_generation_tolerates_a_gen_dash_variant() {
    assert_eq!(parse_handoff_generation("37-gen-1.md"), Some(1));
    assert_eq!(parse_handoff_generation("37-gen-42.md"), Some(42));
    // Garbled variants still parse as nothing.
    assert_eq!(parse_handoff_generation("37-gen-.md"), None);
    assert_eq!(parse_handoff_generation("37-gen-2x.md"), None);
    // Recovery digests stay excluded in the dash spelling too.
    assert_eq!(parse_handoff_generation("37-gen-3-recovery.md"), None);
}

#[test]
fn test_instruction_carries_the_full_handoff_brief() {
    let text = handoff_instruction("#37", 2);
    // The written marker with its exact value.
    assert!(text.contains("<samurai-handoff-written>gen-2</samurai-handoff-written>"));
    // The exact file location the validator will check.
    assert!(text.contains(".maestro/handoffs/37-gen2.md"));
    for heading in [
        "Goal",
        "Done",
        "In progress",
        "Decisions + why",
        "Failed attempts",
        "Repo state",
        "Verify",
        "Next steps",
    ] {
        assert!(text.contains(heading), "missing heading {heading}");
    }
    assert!(text.contains("REQUIRED"));
    assert!(text.contains("never content dumps"));
    assert!(text.contains("HEAD SHA"));
    assert!(text.contains("AFTER"));
    // Wind-down and gitignore clauses.
    assert!(text.contains("CURRENT step only"));
    assert!(text.contains(".gitignore"));
    // WIP commit discipline.
    assert!(text.contains("stage named paths only"));
    assert!(text.contains("Conventional Commit"));
    assert!(text.contains("Never quote, restate, or echo"));
}

#[test]
fn test_corrective_instruction_is_single_line_with_failure_and_markers() {
    let text = handoff_corrective_instruction("#37", 4, "handoff file missing\nat some path");
    assert!(!text.contains('\n'), "corrective must not contain \\n");
    assert!(!text.contains('\r'), "corrective must not contain \\r");
    // The failure is stated, newline collapsed away.
    assert!(text.contains("handoff file missing at some path"));
    assert!(text.contains("<samurai-ack>handoff gen-4 retry</samurai-ack>"));
    assert!(text.contains("<samurai-handoff-written>gen-4 retry</samurai-handoff-written>"));
    assert!(!text.contains("<samurai-ack>handoff gen-4</samurai-ack>"));
    assert!(!text.contains("<samurai-handoff-written>gen-4</samurai-handoff-written>"));
    assert!(text.contains(".maestro/handoffs/37-gen4.md"));
    assert!(text.contains("Never quote, restate, or echo"));
}

// --- park + soft wind-down ---

#[test]
fn test_park_marker_values_are_kind_and_round_scoped() {
    // Kind-scoped: a replayed handoff marker for the same generation must
    // never satisfy a park (same tag, distinct value), and vice versa.
    assert_eq!(park_ack_value(3), "park gen-3");
    assert_eq!(park_written_value(3), "gen-3 park");
    assert_ne!(park_ack_value(3), handoff_ack_value(3));
    assert_ne!(park_written_value(3), handoff_written_value(3));
    // Round-scoped, same replay reasoning as the handoff retry values.
    assert_eq!(park_ack_retry_value(3), "park gen-3 retry");
    assert_eq!(park_written_retry_value(3), "gen-3 park retry");
    assert_ne!(park_ack_retry_value(3), park_ack_value(3));
    assert_ne!(park_written_retry_value(3), park_written_value(3));
    // And the park retry values never collide with the handoff ones.
    assert_ne!(park_written_retry_value(3), handoff_written_retry_value(3));
    assert_eq!(soft_winddown_ack_value(4), "winddown gen-4");
    assert_ne!(soft_winddown_ack_value(4), handoff_ack_value(4));
    assert_ne!(soft_winddown_ack_value(4), park_ack_value(4));
}

#[test]
fn test_park_instruction_is_single_line_with_full_brief() {
    let text = park_instruction("#37", 2);
    assert!(!text.contains('\n'), "park must not contain \\n");
    assert!(!text.contains('\r'), "park must not contain \\r");
    // The exact markers the injector's scanners expect.
    assert!(text.contains("<samurai-ack>park gen-2</samurai-ack>"));
    assert!(text.contains("<samurai-handoff-written>gen-2 park</samurai-handoff-written>"));
    // The standard handoff relpath — the file doubles as park state.
    assert!(text.contains(".maestro/handoffs/37-gen2.md"));
    // Finish the atomic step only, commit ALL WIP, template headings.
    assert!(text.contains("atomic step ONLY"));
    assert!(text.contains("start NOTHING new"));
    assert!(text.contains("Commit ALL WIP"));
    assert!(text.contains("stage named paths only"));
    for heading in [
        "Goal",
        "Done",
        "In progress",
        "Decisions + why",
        "Failed attempts",
        "Repo state",
        "Verify",
        "Next steps",
    ] {
        assert!(text.contains(heading), "missing heading {heading}");
    }
    assert!(text.contains("HEAD SHA"));
    assert!(text.contains("Never quote, restate, or echo"));
}

#[test]
fn test_park_corrective_is_single_line_with_retry_markers() {
    let text = park_corrective_instruction("#37", 4, "WIP is not\ncommitted");
    assert!(!text.contains('\n'));
    assert!(!text.contains('\r'));
    assert!(text.contains("Park INVALID"));
    assert!(text.contains("WIP is not committed"));
    assert!(text.contains("<samurai-ack>park gen-4 retry</samurai-ack>"));
    assert!(
        text.contains("<samurai-handoff-written>gen-4 park retry</samurai-handoff-written>")
    );
    assert!(!text.contains("<samurai-ack>park gen-4</samurai-ack>"));
    assert!(text.contains(".maestro/handoffs/37-gen4.md"));
    assert!(text.contains("final attempt"));
}

#[test]
fn test_soft_winddown_instruction_shape() {
    let text = soft_winddown_instruction(3);
    assert!(!text.contains('\n'));
    assert!(!text.contains('\r'));
    assert!(text.contains("<samurai-ack>winddown gen-3</samurai-ack>"));
    // Wind down: no new subagents, wrap up, park may follow.
    assert!(text.contains("NO new subagents"));
    assert!(text.contains("CURRENT step only"));
    assert!(text.contains("park instruction"));
    // No file and no written marker are involved.
    assert!(text.contains("No file needs to be written"));
    assert!(!text.contains("<samurai-handoff-written>"));
    assert!(text.contains("Never quote, restate, or echo"));
}

// --- successor ritual + HEAD-SHA extraction ---

const SHA: &str = "0123456789abcdef0123456789abcdef01234567";

#[test]
fn test_head_sha_from_template_shaped_handoff() {
    let content = format!(
        "# Handoff — epic #37 — gen 2\n\
         ## Goal            #37 auth epic\n\
         ## Done            closed #40, #41\n\
         ## Repo state      branch feat/auth, HEAD SHA: {SHA}, no dirty files\n\
         ## Verify          cargo test --workspace\n\
         ## Next steps      1. issue #42\n"
    );
    assert_eq!(handoff_head_sha(&content), Some(SHA.to_string()));
}

#[test]
fn test_head_sha_from_sloppy_variants() {
    // Bare SHA on its own line under a lowercase heading.
    let content = format!("## repo state\nbranch: main\n{SHA}\n## Verify\nnpm test\n");
    assert_eq!(handoff_head_sha(&content), Some(SHA.to_string()));

    // No markdown heading at all — a prose "Repo state:" line.
    let content =
        format!("Goal: ship it\nRepo state: main @ {SHA} (clean)\nVerify: npm test\n");
    assert_eq!(handoff_head_sha(&content), Some(SHA.to_string()));

    // Uppercase hex is a valid SHA spelling.
    let upper = SHA.to_ascii_uppercase();
    let content = format!("## Repo state\nHEAD {upper}\n");
    assert_eq!(handoff_head_sha(&content), Some(upper));

    // First 40-hex in the section wins when several appear.
    let other = "f".repeat(40);
    let content = format!("## Repo state\nHEAD {SHA} (previous {other})\n");
    assert_eq!(handoff_head_sha(&content), Some(SHA.to_string()));
}

#[test]
fn test_head_sha_rejects_missing_or_malformed() {
    // No Repo state section at all.
    assert_eq!(handoff_head_sha(&format!("## Done\n{SHA}\n")), None);
    // SHA only in ANOTHER section: the parser is section-scoped.
    let content = format!(
        "## Repo state\nbranch main, forgot the SHA\n## Verify\ngit reset --hard {SHA}\n"
    );
    assert_eq!(handoff_head_sha(&content), None);
    // Too short / too long / embedded in a longer word.
    assert_eq!(
        handoff_head_sha(&format!("## Repo state\n{}\n", &SHA[..39])),
        None
    );
    assert_eq!(handoff_head_sha(&format!("## Repo state\n{SHA}0\n")), None);
    assert_eq!(handoff_head_sha(&format!("## Repo state\nx{SHA}\n")), None);
    assert_eq!(handoff_head_sha(&format!("## Repo state\n{SHA}g\n")), None);
    // Empty input.
    assert_eq!(handoff_head_sha(""), None);
}

#[test]
fn test_successor_session_name_shape() {
    assert_eq!(successor_session_name("#37", 3), "samurai gen-3 37");
    assert_eq!(
        successor_session_name("Epic 12: Auth", 2),
        "samurai gen-2 epic-12-auth"
    );
}

#[test]
fn test_ritual_instruction_is_single_line_both_branches() {
    for head_matched in [true, false] {
        let text = successor_ritual_instruction("#37", 2, head_matched, &wf());
        assert!(!text.contains('\n'), "ritual must not contain \\n");
        assert!(!text.contains('\r'), "ritual must not contain \\r");
    }
    // A pathological epic ref cannot smuggle a newline into the paste.
    let text = successor_ritual_instruction("epic\nwith newline", 2, true, &wf());
    assert!(!text.contains('\n'));
    assert!(text.contains("epic with newline"));
}

#[test]
fn test_ritual_instruction_head_match_branch_skips_verify() {
    let text = successor_ritual_instruction("#37", 2, true, &wf());
    assert!(text.contains("generation 3"));
    assert!(text.contains("generation 3 for #37"));
    assert!(text.contains("successor to generation 2"));
    // The predecessor's handoff file, via the same path function the
    // validator used.
    assert!(text.contains(".maestro/handoffs/37-gen2.md"));
    assert!(text.contains("IN FULL"));
    assert!(text.contains("already satisfied"));
    assert!(text.contains("SKIP"));
    assert!(text.contains("Next steps"));
    // And no verify-required language.
    assert!(!text.contains("MUST run"));
}

#[test]
fn test_ritual_instruction_mismatch_branch_requires_verify() {
    let text = successor_ritual_instruction("#37", 2, false, &wf());
    assert!(text.contains("generation 3"));
    assert!(text.contains("successor to generation 2"));
    assert!(text.contains(".maestro/handoffs/37-gen2.md"));
    // Verify is mandatory and nothing unverified is trusted.
    assert!(text.contains("could NOT confirm"));
    assert!(text.contains("MUST run every command"));
    assert!(text.contains("trust NOTHING"));
    assert!(text.contains("Next steps"));
    // And no skip language.
    assert!(!text.contains("SKIP"));
}

// --- recovery mode ---

#[test]
fn test_recovery_digest_relpath_shape() {
    assert_eq!(
        recovery_digest_relpath("#37", 3),
        ".maestro/handoffs/37-gen3-recovery.md"
    );
    assert_eq!(
        recovery_digest_relpath("Epic 12", 10),
        ".maestro/handoffs/epic-12-gen10-recovery.md"
    );
}

#[test]
fn test_recovery_instruction_is_single_line() {
    for pin in [None, Some("owner/repo")] {
        let text = recovery_ritual_instruction("#37", 2, pin, &wf());
        assert!(!text.contains('\n'), "recovery must not contain \\n");
        assert!(!text.contains('\r'), "recovery must not contain \\r");
    }
    // A pathological epic ref cannot smuggle a newline into the paste.
    let text = recovery_ritual_instruction("epic\nwith newline", 2, None, &wf());
    assert!(!text.contains('\n'));
    assert!(text.contains("epic with newline"));
}

#[test]
fn test_recovery_instruction_content() {
    let text = recovery_ritual_instruction("#37", 2, None, &wf());
    // Identity: what happened and who the successor is.
    assert!(text.contains("RECOVERY MODE"));
    assert!(text.contains("generation 3"));
    assert!(text.contains("generation 3 for #37"));
    assert!(text.contains("Generation 2 died without a valid handoff file"));
    // The three reconstruction sources.
    assert!(text.contains("`git log --oneline -20`"));
    assert!(text.contains("`gh` CLI"));
    assert!(text.contains("ALL of their comments"));
    assert!(text.contains(".maestro/handoffs/37-gen3-recovery.md"));
    // The digest is hints, not truth.
    assert!(text.contains("hints, NOT as truth"));
    // Verify before trusting anything, then announce and continue.
    assert!(text.contains("standard verification (build + tests) BEFORE trusting"));
    assert!(text.contains("comment on this run's GitHub issue(s)"));
    assert!(text.contains("continue this run's remaining work"));
    // No normal-ritual language: there is no handoff to read.
    assert!(!text.contains("Read the handoff file"));
    assert!(!text.contains("SKIP"));
}

#[test]
fn test_recovery_instruction_pins_the_repo_when_known() {
    let text = recovery_ritual_instruction("#37", 2, Some("nachogl1/maestro"), &wf());
    assert_eq!(
        text.matches("--repo nachogl1/maestro").count(),
        2,
        "read AND comment must be pinned: {text}"
    );
    assert!(text.contains("passing `--repo nachogl1/maestro` explicitly"));
    assert!(text.contains("(again via `gh` with `--repo nachogl1/maestro`)"));
    // No caution when the pin is known.
    assert!(!text.contains("CAUTION"));
    // The rest of the ritual is unchanged.
    assert!(text.contains("RECOVERY MODE"));
    assert!(text.contains("hints, NOT as truth"));
}

#[test]
fn test_recovery_instruction_without_pin_carries_a_caution() {
    let text = recovery_ritual_instruction("#37", 2, None, &wf());
    // No pinned `gh` usage (the caution itself mentions the missing pin).
    assert!(!text.contains("passing `--repo"));
    assert!(!text.contains("again via `gh`"));
    assert!(text.contains("CAUTION"));
    assert!(text.contains("double-check it targets the correct repository"));
}

// --- gen-1 launch brief ---

/// An empty ref list, spelled so type inference has something to chew on.
const NO_REFS: [&str; 0] = [];

#[test]
fn test_launch_instruction_is_single_line() {
    for pin in [None, Some("owner/repo")] {
        for refs in [
            RunRefs::epics_only("#38"),
            RunRefs::new(&NO_REFS, &["7", "9"]),
            RunRefs::new(&["5"], &["7"]),
        ] {
            let text = launch_instruction(&refs, pin, &wf());
            assert!(!text.contains('\n'), "launch brief must not contain \\n");
            assert!(!text.contains('\r'), "launch brief must not contain \\r");
        }
    }
    // A pathological ref cannot smuggle a newline into the paste — on
    // EITHER side of the split.
    let text = launch_instruction(&RunRefs::epics_only("epic\nwith newline"), None, &wf());
    assert!(!text.contains('\n'));
    assert!(text.contains("epic with newline"));
    let text = launch_instruction(&RunRefs::new(&NO_REFS, &["7\n9"]), None, &wf());
    assert!(!text.contains('\n'));
    assert!(text.contains("issue 7 9"));
}

#[test]
fn test_launch_instruction_content() {
    let text = launch_instruction(&RunRefs::epics_only("#38"), None, &wf());
    // Identity: gen-1, the epic, its dedicated worktree.
    assert!(text.contains("generation 1"));
    assert!(text.contains("epic #38"));
    assert!(text.contains("worktree"));
    // Read the epic AND its child issues, plan first.
    assert!(text.contains("`gh` CLI"));
    assert!(text.contains("ALL of its comments"));
    assert!(text.contains("EVERY child issue"));
    // Agent-readiness is the MODEL's call, not a human checkbox: gen-1
    // judges each issue, works the ready ones, and reports the rest.
    assert!(text.contains("AGENT-READY"));
    assert!(text.contains("Work only the ready ones"));
    assert!(text.contains("exactly what is missing"));
    assert!(text.contains("Plan the work"));
    assert!(text.contains("SMALL idempotent subagent tasks"));
    assert!(text.contains("stage named paths only"));
    assert!(text.contains("Conventional Commit"));
    assert!(text.contains("comment progress"));
    assert!(text.contains("open the run's pull request"));
    assert!(text.contains("keep it updated"));
    assert!(!text.contains("open pull requests"));
    assert!(text.contains("NEVER switch to, commit to, or push any other branch"));
    assert!(text.contains("NEVER touch any repository other than this one"));
    // No successor/recovery language: there is nothing to hand off from.
    assert!(!text.contains("handoff"));
    assert!(!text.contains("RECOVERY"));
}

#[test]
fn test_launch_instruction_pins_the_repo_when_known() {
    let text = launch_instruction(&RunRefs::epics_only("#38"), Some("nachogl1/maestro"), &wf());
    assert_eq!(
        text.matches("--repo nachogl1/maestro").count(),
        2,
        "read AND progress clauses must be pinned: {text}"
    );
    assert!(text.contains("passing `--repo nachogl1/maestro` explicitly"));
    assert!(!text.contains("CAUTION"));
    // The pin rides every shape, not just the epic one.
    for refs in [
        RunRefs::new(&NO_REFS, &["7", "9"]),
        RunRefs::new(&["5"], &["7"]),
    ] {
        let text = launch_instruction(&refs, Some("nachogl1/maestro"), &wf());
        assert_eq!(
            text.matches("--repo nachogl1/maestro").count(),
            2,
            "read AND progress clauses must be pinned: {text}"
        );
        assert!(!text.contains("CAUTION"));
    }
}

#[test]
fn test_launch_instruction_without_pin_carries_a_caution() {
    for refs in [
        RunRefs::epics_only("#38"),
        RunRefs::new(&NO_REFS, &["7", "9"]),
        RunRefs::new(&["5"], &["7"]),
    ] {
        let text = launch_instruction(&refs, None, &wf());
        assert!(!text.contains("passing `--repo"));
        assert!(text.contains("CAUTION"));
        assert!(text.contains("double-check it targets the correct repository"));
    }
}

// --- epics and issues named separately ---

#[test]
fn test_run_refs_normalises_every_ref() {
    let refs = RunRefs::new(&["#5", " 12 ", "", "  ", "#"], &[" #7", "9"]);
    assert_eq!(refs.epics().to_vec(), vec!["5", "12"]);
    assert_eq!(refs.issues().to_vec(), vec!["7", "9"]);
    assert!(!refs.is_empty());
    assert!(RunRefs::new(&NO_REFS, &NO_REFS).is_empty());
    let refs = RunRefs::epics_only("#77, 78,");
    assert_eq!(refs.epics().to_vec(), vec!["77", "78"]);
    assert!(refs.issues().is_empty());
    // No ref can smuggle a newline (the paste-ability invariant).
    let refs = RunRefs::new(&["5\n6"], &NO_REFS);
    assert_eq!(refs.epics().to_vec(), vec!["5 6"]);
    assert!(!refs.label().contains('\n'));
}

#[test]
fn test_run_refs_label_slugs_to_the_combined_run_slug() {
    // The identity property later steps store as the run's `epic` field:
    // the label IS what epic_slug turns into the run's branch/worktree/
    // handoff-filename slug, so the split never touches epic_slug.
    let both = RunRefs::new(&["5"], &["7", "9"]);
    assert_eq!(both.label(), "epic #5 · issues #7, #9");
    assert_eq!(epic_slug(&both.label()), "epic-5-issues-7-9");

    let issues = RunRefs::new(&NO_REFS, &["7", "9"]);
    assert_eq!(issues.label(), "issues #7, #9");
    assert_eq!(epic_slug(&issues.label()), "issues-7-9");

    let epic = RunRefs::epics_only("5");
    assert_eq!(epic.label(), "epic #5");
    assert_eq!(epic_slug(&epic.label()), "epic-5");

    // Plurals agree on both sides.
    assert_eq!(RunRefs::epics_only("5, 12").label(), "epics #5, #12");
    assert_eq!(RunRefs::new(&NO_REFS, &["7"]).label(), "issue #7");
    assert_eq!(
        RunRefs::new(&["5", "12"], &["7"]).label(),
        "epics #5, #12 · issue #7"
    );

    // Pathological: nothing usable on either side still slugs to a
    // legal, non-empty name — epic_slug's existing `epic` fallback.
    let empty = RunRefs::new(&NO_REFS, &NO_REFS);
    assert_eq!(empty.label(), "");
    assert_eq!(epic_slug(&empty.label()), "epic");
    assert_eq!(epic_slug(&RunRefs::epics_only(" , ").label()), "epic");
}

#[test]
fn test_run_refs_prose_names_each_set() {
    assert_eq!(RunRefs::epics_only("#5").prose(), "GitHub epic #5");
    assert_eq!(RunRefs::epics_only("5, 12").prose(), "GitHub epics #5, #12");
    assert_eq!(
        RunRefs::new(&NO_REFS, &["7", "9"]).prose(),
        "GitHub issues #7, #9"
    );
    assert_eq!(RunRefs::new(&NO_REFS, &["7"]).prose(), "GitHub issue #7");
    assert_eq!(
        RunRefs::new(&["5"], &["7", "9"]).prose(),
        "GitHub epic #5 and issues #7, #9"
    );
    assert_eq!(
        RunRefs::new(&["5", "12"], &["7"]).prose(),
        "GitHub epics #5, #12 and issue #7"
    );
}

#[test]
fn test_launch_instruction_epics_only_wording_keeps_epic_framing() {
    let text = launch_instruction(&RunRefs::epics_only("#38"), None, &wf());
    assert!(text.starts_with(
        "[Maestro Samurai] You are generation 1, the FIRST orchestrator, for GitHub epic \
         #38. This directory is the epic's dedicated worktree on its own branch."
    ));
    assert!(text.contains(
        "read the epic's GitHub issue, ALL of its comments, and EVERY child issue it \
         references with the `gh` CLI, run from this directory"
    ));
    assert!(text.contains("say so in your progress comment on the epic"));
    assert!(text.contains("comment progress on the epic's GitHub issue as issues complete"));
    assert!(text.contains(
        "CAUTION: Maestro could not determine this repository's origin remote"
    ));
}

#[test]
fn test_launch_instruction_issues_only_never_mentions_an_epic() {
    let text = launch_instruction(&RunRefs::new(&NO_REFS, &["7", "9"]), None, &wf());
    // Named for what it is, plural agreeing.
    assert!(text.contains("for GitHub issues #7, #9."));
    assert!(text.contains("This directory is this run's dedicated worktree"));
    // Each issue is read, and progress is commented on each issue.
    assert!(text.contains("read EACH of this run's GitHub issues and ALL of their comments"));
    assert!(text.contains("comment progress on EACH of those GitHub issues as they complete"));
    assert!(text.contains("say so in that issue's progress comment"));
    // The whole point: no phantom parent, no phantom children.
    assert!(
        !text.to_lowercase().contains("epic"),
        "still says epic: {text}"
    );
    assert!(
        !text.contains("child issue"),
        "still says child issue: {text}"
    );
    // Singular agrees too.
    let one = launch_instruction(&RunRefs::new(&NO_REFS, &["7"]), None, &wf());
    assert!(one.contains("for GitHub issue #7."));
    assert!(one.contains("read this run's GitHub issue and ALL of its comments"));
    assert!(one.contains("comment progress on that GitHub issue as work completes"));
    assert!(!one.to_lowercase().contains("epic"));
}

#[test]
fn test_launch_instruction_both_names_the_epic_and_the_issues_separately() {
    let text = launch_instruction(&RunRefs::new(&["5"], &["7", "9"]), None, &wf());
    // The identity sentence names both sets, separately.
    assert!(text.contains("for GitHub epic #5 and issues #7, #9."));
    // Read the epic AND its children AND the named standalone issues.
    assert!(text.contains(
        "read the epic's GitHub issue, ALL of its comments, and EVERY child issue it \
         references, plus the standalone issues #7, #9 and ALL of their comments"
    ));
    // Progress still gathers on the epic.
    assert!(text.contains("comment progress on the epic's GitHub issue as issues complete"));
    // Singular standalone issue agrees.
    let one = launch_instruction(&RunRefs::new(&["5"], &["7"]), None, &wf());
    assert!(one.contains("for GitHub epic #5 and issue #7."));
    assert!(one.contains("plus the standalone issue #7 and ALL of its comments"));
}

#[test]
fn test_launch_instruction_epic_plurals_agree() {
    let text = launch_instruction(&RunRefs::epics_only("5, 12"), None, &wf());
    assert!(text.contains("for GitHub epics #5, #12."));
    assert!(text.contains(
        "read the epics' GitHub issues, ALL of their comments, and EVERY child issue they \
         reference"
    ));
    assert!(text.contains("comment progress on the epics' GitHub issues as issues complete"));
    assert!(text.contains("say so in your progress comment on the epics"));
}

#[test]
fn test_sibling_prompts_never_call_a_set_of_issues_an_epic() {
    // From step 1b onward these receive RunRefs::label() — an
    // issues-only run must never be described as an epic anywhere.
    let label = RunRefs::new(&NO_REFS, &["7", "9"]).label();
    let successor = successor_ritual_instruction(&label, 2, true, &wf());
    assert!(successor.contains("generation 3 for issues #7, #9"));
    let recovery = recovery_ritual_instruction(&label, 2, Some("nachogl1/maestro"), &wf());
    assert!(recovery.contains("generation 3 for issues #7, #9"));
    for text in [
        successor,
        recovery,
        recovery_ritual_instruction(&label, 2, None, &wf()),
        handoff_instruction(&label, 2),
        handoff_corrective_instruction(&label, 2, "handoff file missing"),
        park_instruction(&label, 2),
        park_corrective_instruction(&label, 2, "WIP is not committed"),
    ] {
        assert!(
            !text.to_lowercase().contains("epic"),
            "still says epic: {text}"
        );
    }
    // And an epic-only run still reads exactly as it did: the label
    // itself supplies the word.
    let label = RunRefs::epics_only("#5").label();
    assert!(successor_ritual_instruction(&label, 2, true, &wf())
        .contains("generation 3 for epic #5"));
    assert!(recovery_ritual_instruction(&label, 2, None, &wf())
        .contains("you are generation 3 for epic #5."));
}

// --- comma-separated issue list is not an epic ---

#[test]
fn test_is_issue_list_detects_comma_separated_refs() {
    assert!(!is_issue_list("#38"));
    assert!(!is_issue_list("Epic 12: Auth"));
    assert!(!is_issue_list("https://github.com/o/r/issues/9"));
    assert!(is_issue_list("77, 78"));
    assert!(is_issue_list("#76, #77, #78"));
}

#[test]
fn test_launch_instruction_list_shape_has_no_epic_framing() {
    let text = launch_instruction(
        &RunRefs::new(&NO_REFS, &["76", "77", "78"]),
        Some("nachogl1/maestro"),
        &wf(),
    );
    assert!(text.contains("for GitHub issues #76, #77, #78"));
    assert!(text.contains("read EACH of this run's GitHub issues and ALL of their comments"));
    assert!(text.contains("comment progress on EACH of those GitHub issues as they complete"));
    assert!(!text.to_lowercase().contains("epic"));
    assert!(!text.to_lowercase().contains("child issue"));
    // The rest of the brief is unaffected.
    assert!(text.contains("generation 1"));
    assert!(text.contains("AGENT-READY"));
    assert!(!text.contains('\n'));
}

#[test]
fn test_launch_instruction_single_epic_ref_keeps_todays_wording() {
    let text = launch_instruction(&RunRefs::epics_only("#38"), None, &wf());
    assert!(text.contains("for GitHub epic #38"));
    assert!(text.contains("the epic's dedicated worktree"));
    assert!(text.contains(
        "the epic's GitHub issue, ALL of its comments, and EVERY child issue it references"
    ));
    assert!(text.contains("comment progress on the epic's GitHub issue as issues complete"));
    assert!(text.contains("your progress comment on the epic"));
}

#[test]
fn test_successor_ritual_instruction_list_shape_has_no_epic_framing() {
    let text = successor_ritual_instruction("77, 78", 2, true, &wf());
    assert!(text.contains("generation 3 for 77, 78"));
    assert!(!text.to_lowercase().contains("epic"));
    assert!(text.contains("generation 3"));
    assert!(text.contains("successor to generation 2"));
}

#[test]
fn test_recovery_ritual_instruction_list_shape_has_no_epic_framing() {
    let text = recovery_ritual_instruction("77, 78", 2, Some("nachogl1/maestro"), &wf());
    assert!(text.contains("generation 3 for 77, 78"));
    assert!(text.contains("read this run's GitHub issue(s) and ALL of their comments"));
    assert!(text.contains("comment on this run's GitHub issue(s)"));
    assert!(text.contains("this run's remaining work"));
    assert!(!text.to_lowercase().contains("epic"));
    assert!(text.contains("RECOVERY MODE"));
}

// --- acceptance-criteria commands must be runnable ---

#[test]
fn test_launch_instruction_verifies_acceptance_criteria_commands() {
    for text in [
        launch_instruction(&RunRefs::epics_only("#38"), Some("nachogl1/maestro"), &wf()),
        launch_instruction(&RunRefs::new(&NO_REFS, &["76", "77", "78"]), None, &wf()),
    ] {
        // Runnability is part of the agent-ready bar…
        assert!(
            text.contains(
                "every command named in its acceptance criteria exists and is RUNNABLE"
            ),
            "{text}"
        );
        // …and it is VERIFIED against the repo, never assumed.
        assert!(text.contains("VERIFY runnability"), "{text}");
        assert!(
            text.contains("check the repo instead of assuming"),
            "{text}"
        );
        assert!(text.contains("package.json"), "{text}");
        assert!(text.contains("`--version`/`--help` probe"), "{text}");
        // A missing command disqualifies the issue…
        assert!(
            text.contains("name a command that is missing is NOT agent-ready"),
            "{text}"
        );
        // …and the issue is named-and-excluded, never guessed at.
        assert!(
            text.contains("for a missing command, name exactly which command"),
            "{text}"
        );
        assert!(text.contains("exclude it from this run"), "{text}");
        // Still one paste-able line (module doc).
        assert!(!text.contains('\n'));
    }
}

// --- PR-issue linking (Closes/Fixes) ---

#[test]
fn test_launch_instruction_instructs_pr_issue_linking() {
    // Merging a Samurai PR must close the issues it resolves — GitHub
    // only does that when the PR body says so.
    for pin in [None, Some("nachogl1/maestro")] {
        let text = launch_instruction(&RunRefs::epics_only("#38"), pin, &wf());
        assert!(text.contains("Closes #N"), "{text}");
        assert!(text.contains("Fixes #N"), "{text}");
        assert!(text.contains("GitHub auto-closes them on merge"), "{text}");
    }
}

#[test]
fn test_successor_ritual_instruction_instructs_pr_issue_linking() {
    for head_matched in [true, false] {
        let text = successor_ritual_instruction("#37", 2, head_matched, &wf());
        assert!(text.contains("Closes #N"), "{text}");
        assert!(text.contains("Fixes #N"), "{text}");
        assert!(text.contains("GitHub auto-closes them on merge"), "{text}");
    }
}

#[test]
fn test_recovery_ritual_instruction_instructs_pr_issue_linking() {
    let text = recovery_ritual_instruction("#37", 2, None, &wf());
    assert!(text.contains("Closes #N"));
    assert!(text.contains("Fixes #N"));
    assert!(text.contains("GitHub auto-closes them on merge"));
}

// --- PR titles enumerate every issue/epic number ---

#[test]
fn test_launch_instruction_instructs_pr_title_enumerates_refs() {
    let text = launch_instruction(&RunRefs::epics_only("#38"), None, &wf());
    assert!(
        text.contains(
            "every PR title must list every issue/epic number this run covers, from the \
             moment it is created"
        ),
        "{text}"
    );
    assert!(
        text.contains("`feat(samurai): #76 #77 #78 — summary`"),
        "{text}"
    );
}

#[test]
fn test_successor_ritual_instruction_instructs_pr_title_enumerates_refs() {
    let text = successor_ritual_instruction("#37", 2, true, &wf());
    assert!(
        text.contains(
            "its title must list every issue/epic number this run covers, from the moment \
             it is created"
        ),
        "{text}"
    );
    assert!(
        text.contains("`feat(samurai): #76 #77 #78 — summary`"),
        "{text}"
    );
}

// --- run-completion declaration clause ---

#[test]
fn test_every_orchestrator_brief_instructs_the_completion_declaration() {
    let briefs = [
        launch_instruction(&RunRefs::epics_only("#38"), Some("nachogl1/maestro"), &wf()),
        launch_instruction(&RunRefs::new(&NO_REFS, &["77", "78"]), None, &wf()),
        successor_ritual_instruction("#37", 2, true, &wf()),
        successor_ritual_instruction("#37", 2, false, &wf()),
        recovery_ritual_instruction("#37", 2, Some("nachogl1/maestro"), &wf()),
        recovery_ritual_instruction("#37", 2, None, &wf()),
    ];
    for text in &briefs {
        // The exact tag the samurai_completion scanner watches for, in
        // opening AND closing form, plus the claim shape: issues first,
        // then the PR number — what `gh` verification checks.
        assert!(
            text.contains(&format!("<{RUN_COMPLETE_TAG}>issues")),
            "missing declaration template: {text}"
        );
        assert!(text.contains(&format!("</{RUN_COMPLETE_TAG}>")));
        assert!(text.contains("pr #<n>"));
        assert!(text.contains("pull request is OPEN"));
        assert!(text.contains("CLOSED on GitHub or linked for close"));
        assert!(text.contains("MERGED and every issue is CLOSED"));
        // Maestro verifies — an unverified declaration never flips.
        assert!(text.contains("verifies"));
        assert!(text.contains("Never quote, restate, or echo"));
        // Still one paste-able line (module doc).
        assert!(!text.contains('\n'), "brief must stay a single line");
        assert!(!text.contains('\r'));
    }
}

// --- user issue order is the execution order ---

#[test]
fn test_launch_instruction_carries_the_order_contract() {
    // The user's listed order IS the execution order; gen-1 validates it
    // FIRST — before any code — and never silently reorders. A deviation
    // goes through the order-alert marker + the user's answer in the
    // terminal.
    let epic = launch_instruction(&RunRefs::epics_only("#38"), Some("nachogl1/maestro"), &wf());
    assert!(
        epic.contains("the order in which the epic lists its child issues"),
        "{epic}"
    );
    // List shape stays epic-free (enforced by
    // test_launch_instruction_list_shape_has_no_epic_framing).
    let list = launch_instruction(&RunRefs::new(&NO_REFS, &["76", "77", "78"]), None, &wf());
    assert!(
        list.contains("the order in which the issues are listed above"),
        "{list}"
    );
    for text in [epic, list] {
        assert!(text.contains("EXECUTION ORDER"), "{text}");
        assert!(text.contains("strictly sequentially"), "{text}");
        assert!(text.contains("in exactly that order by default"), "{text}");
        assert!(text.contains("FIRST step"), "{text}");
        assert!(text.contains("before touching ANY code"), "{text}");
        assert!(
            text.contains("validate that order against the real dependencies"),
            "{text}"
        );
        // Agreement is silent; deviation STOPs and alerts with BOTH
        // orders + reasoning via the exact tag the watcher scans for.
        assert!(
            text.contains("proceed in that order without comment"),
            "{text}"
        );
        assert!(text.contains("STOP before any code"), "{text}");
        assert!(
            text.contains(&format!("<{ORDER_ALERT_TAG}>original:")),
            "{text}"
        );
        assert!(text.contains(&format!("</{ORDER_ALERT_TAG}>")), "{text}");
        assert!(text.contains("proposed:"), "{text}");
        assert!(text.contains("reasoning:"), "{text}");
        assert!(text.contains("WAIT for the user's answer"), "{text}");
        assert!(text.contains("NEVER silently reorder"), "{text}");
        // Still one paste-able line (module doc).
        assert!(!text.contains('\n'));
    }
}

#[test]
fn test_successor_briefs_restate_the_order_contract() {
    // Successors (normal AND recovery, epic AND list shape) inherit the
    // order fixed at launch — they must not re-plan it, and a new
    // deviation goes through the same alert + confirmation.
    let briefs = [
        successor_ritual_instruction("#37", 2, true, &wf()),
        successor_ritual_instruction("#37", 2, false, &wf()),
        successor_ritual_instruction("77, 78", 2, true, &wf()),
        recovery_ritual_instruction("#37", 2, Some("nachogl1/maestro"), &wf()),
        recovery_ritual_instruction("77, 78", 2, None, &wf()),
    ];
    for text in &briefs {
        assert!(text.contains("fixed at launch"), "{text}");
        assert!(text.contains("Do NOT re-plan it"), "{text}");
        assert!(text.contains("strictly sequentially"), "{text}");
        assert!(
            text.contains(&format!("<{ORDER_ALERT_TAG}>original:")),
            "{text}"
        );
        assert!(text.contains("WAIT for the user's answer"), "{text}");
        assert!(text.contains("NEVER silently reorder"), "{text}");
        assert!(!text.contains('\n'));
    }
}

// --- the compiled WORKFLOW section ---

#[test]
fn test_every_orchestrator_brief_carries_the_delimited_workflow_section() {
    let briefs = [
        launch_instruction(&RunRefs::epics_only("#38"), Some("nachogl1/maestro"), &wf()),
        launch_instruction(&RunRefs::new(&NO_REFS, &["76", "77", "78"]), None, &wf()),
        successor_ritual_instruction("#37", 2, true, &wf()),
        successor_ritual_instruction("#37", 2, false, &wf()),
        recovery_ritual_instruction("#37", 2, Some("nachogl1/maestro"), &wf()),
        recovery_ritual_instruction("#37", 2, None, &wf()),
    ];
    for text in &briefs {
        assert!(
            text.contains("WORKFLOW — the process for this run"),
            "{text}"
        );
        assert!(text.contains("— END OF WORKFLOW."), "{text}");
        // The canonical steps, in canonical order.
        let positions: Vec<usize> = [
            "Step 1: Work the run's issues strictly ONE at a time",
            "Step 2: Run a fresh-eyes review",
            "Step 3: Write a QA report",
            "Step 4: Push the branch",
            "Step 5: After ALL issues are done",
            "Step 6: Run a batch QA pass using the committed per-issue QA reports",
            "Step 7: Open or finalize the run's pull request",
        ]
        .iter()
        .map(|marker| {
            text.find(marker)
                .unwrap_or_else(|| panic!("missing {marker:?}: {text}"))
        })
        .collect();
        assert!(
            positions.windows(2).all(|w| w[0] < w[1]),
            "steps out of order: {text}"
        );
        assert!(text.contains("HUMAN merge decision"), "{text}");
        let order = text.find("ORDER:").expect("ORDER clause present");
        let workflow = text.find("WORKFLOW —").unwrap();
        let completion = text.find("COMPLETION:").expect("COMPLETION clause present");
        assert!(
            order < workflow && workflow < completion,
            "clause order broke: {text}"
        );
        assert!(text.contains("Closes #N"), "{text}");
        // Still one paste-able line (module doc).
        assert!(!text.contains('\n'), "brief must stay a single line");
        assert!(!text.contains('\r'));
    }
}

#[test]
fn test_briefs_embed_the_workflow_they_are_given_not_a_default() {
    // Successors recompile from the graph the run config snapshotted at
    // launch — whatever compiled text arrives is what must ride.
    let custom = "Step 1: custom implement Step 2: custom ship";
    for text in [
        launch_instruction(&RunRefs::epics_only("#38"), None, custom),
        successor_ritual_instruction("#37", 2, true, custom),
        recovery_ritual_instruction("#37", 2, None, custom),
    ] {
        assert!(text.contains("Step 1: custom implement"), "{text}");
        assert!(text.contains("Step 2: custom ship"), "{text}");
        assert!(!text.contains("fresh-eyes review"), "{text}");
    }
}

#[test]
fn test_empty_compiled_workflow_omits_the_section_entirely() {
    // A graph edited down to nothing yields no WORKFLOW shell — and a
    // pathological compiled string cannot smuggle a newline in.
    for text in [
        launch_instruction(&RunRefs::epics_only("#38"), None, ""),
        successor_ritual_instruction("#37", 2, false, "  "),
        recovery_ritual_instruction("#37", 2, None, ""),
    ] {
        assert!(!text.contains("WORKFLOW"), "{text}");
        assert!(!text.contains("END OF"), "{text}");
    }
    let text = launch_instruction(&RunRefs::epics_only("#38"), None, "Step 1: a\nStep 2: b");
    assert!(!text.contains('\n'), "workflow text must be normalized");
    assert!(text.contains("Step 1: a Step 2: b"));
}

#[test]
fn test_workflow_section_keeps_the_list_shape_epic_free() {
    let text = launch_instruction(&RunRefs::new(&NO_REFS, &["76", "77", "78"]), None, &wf());
    assert!(!text.to_lowercase().contains("epic"), "{text}");
    let text = successor_ritual_instruction("77, 78", 2, true, &wf());
    assert!(!text.to_lowercase().contains("epic"), "{text}");
    let text = recovery_ritual_instruction("77, 78", 2, None, &wf());
    assert!(!text.to_lowercase().contains("epic"), "{text}");
}

// --- journaling rider ---

#[test]
fn test_journal_instruction_is_single_line() {
    let text = journal_instruction(r"C:\data\maestro\journal\journal.jsonl");
    assert!(!text.contains('\n'), "rider must not contain \\n");
    assert!(!text.contains('\r'), "rider must not contain \\r");
    // A pathological path cannot smuggle a newline into the paste.
    let text = journal_instruction("path\nwith newline");
    assert!(!text.contains('\n'));
    assert!(text.contains("path with newline"));
}

#[test]
fn test_journal_instruction_content() {
    let path = r"C:\data\maestro\journal\journal.jsonl";
    let text = journal_instruction(path);
    // The exact file agents append to — in the rule AND the echo example.
    assert_eq!(text.matches(path).count(), 2, "path missing: {text}");
    assert!(text.contains(&format!("echo '<json>' >> \"{path}\"")));
    // All five SCREAMING category spellings — the JournalCategory wire
    // contract agents hand-write from shell prompts.
    for category in ["BOTTLENECK", "ERROR", "IMPROVEMENT", "SKILL", "CONCERN"] {
        assert!(
            text.contains(&format!("\"{category}\"")),
            "missing category {category}"
        );
    }
    // The full entry shape, timestamp format included.
    for field in [
        "\"ts\"",
        "\"category\"",
        "\"text\"",
        "\"project\"",
        "\"agent\"",
    ] {
        assert!(text.contains(field), "missing field {field}");
    }
    assert!(text.contains("ISO 8601"));
    assert!(text.contains("append ONE line"));
    // The reader is lenient — but the file is append-only: never
    // rewrite or delete what is already there.
    assert!(text.contains("Malformed lines are skipped"));
    assert!(text.contains("NEVER rewrite or delete existing lines"));
    assert!(text.contains("append-only"));
}

#[test]
fn test_the_scheduling_clause_names_its_example() {
    let text = park_instruction("#5", 2);
    assert!(text.contains("routines, or jobs (e.g. "));
    assert!(text.contains("ude Code's /schedule) to resume, retry, or \"come back later\""));
    assert!(text.ends_with("Maestro resumes the work itself."));
}

#[test]
fn test_slugs_are_tidy_and_their_own_slugs() {
    for name in ["#37", "--Epic  12--", "a__B__c", "", "x-gen5", "é"] {
        let slug = epic_slug(name);
        assert!(!slug.starts_with('-') && !slug.ends_with('-') && !slug.contains("--"), "{slug}");
        assert_eq!(epic_slug(&slug), slug);
    }
    assert_eq!(ref_slug("--Epic  12--", "x"), "epic-12");
    assert_eq!(ref_slug("--", "x"), "x");
}

#[test]
fn test_scanners_read_what_a_brief_asks_for() {
    let text = handoff_instruction("#37", 3);
    assert_eq!(ack_value(&text), Some(handoff_ack_value(3)));
    assert_eq!(written_value(&text), Some(handoff_written_value(3)));
    let text = park_instruction("#37", 3);
    assert_eq!(ack_value(&text), Some(park_ack_value(3)));
    assert_eq!(written_value(&text), Some(park_written_value(3)));
    let text = handoff_corrective_instruction("#37", 3, "the file is missing");
    assert_eq!(ack_value(&text), Some(handoff_ack_retry_value(3)));
    assert_eq!(written_value(&text), Some(handoff_written_retry_value(3)));
    let text = park_corrective_instruction("#37", 3, "the file is missing");
    assert_eq!(ack_value(&text), Some(park_ack_retry_value(3)));
    assert_eq!(written_value(&text), Some(park_written_retry_value(3)));
}

#[test]
fn test_a_launch_brief_ends_with_its_contracts() {
    let text = launch_instruction(&RunRefs::epics_only("#37"), None, &wf());
    let workflow = text.find(" WORKFLOW ").unwrap();
    let complete = text.rfind(RUN_COMPLETE_TAG).unwrap();
    let scheduling = text.find(" SCHEDULING: ").unwrap();
    assert!(text.find(ORDER_ALERT_TAG).unwrap() < workflow);
    assert!(workflow < complete && complete < scheduling);
    assert!(text.ends_with("Maestro resumes the work itself."));
}
