//! The fixed wording of every instruction, piece by piece.
//!
//! Instructions are pasted into a live terminal, where a line end would submit
//! them early. So every piece is a single line, which the lemmas at the end prove.

use vstd::prelude::*;
use crate::text::{no_bracket, single_line};
use crate::words::{ends_with, starts_with};

verus! {

/// The tag in which an orchestrator declares its run complete.
pub const RUN_COMPLETE_TAG: &'static str = "samurai-run-complete";

/// The tag in which an orchestrator asks for another execution order.
pub const ORDER_ALERT_TAG: &'static str = "samurai-order-alert";

/// When and how a run declares itself complete, part 1.
pub const COMPLETION_1: &'static str =
    " COMPLETION: the run is finished when the run's pull request is OPEN and EVERY issue \
     this run works is either CLOSED on GitHub or linked for close by that PR (a `Closes \
     #N`/`Fixes #N` reference in its body — the human's merge then closes it), or when the PR \
     was already MERGED and every issue is CLOSED. At that moment declare completion by \
     replying with a message that contains exactly <";

/// When and how a run declares itself complete, part 2.
pub const COMPLETION_2: &'static str = ">issues #<a> #<b> pr #<n></";

/// When and how a run declares itself complete, part 3.
pub const COMPLETION_3: &'static str =
    "> with the real numbers — list every issue number this run worked, then the pull request \
     number (for example: issues #77 #78 pr #85, inside the tag). Maestro verifies each \
     claimed issue and the PR against GitHub via `gh` before the run is marked complete, so \
     declare only when it is actually true. Never quote, restate, or echo this marker string \
     anywhere else in any reply — emit it exactly once, only as the actual signal at that \
     moment.";

/// Waiting and rescheduling stay with the supervisor, up to the example.
pub const SCHEDULING_1: &'static str =
    " SCHEDULING: all waiting and rescheduling is MAESTRO'S job, handled by its own LOCAL \
     timers. NEVER create cloud-scheduled agents, routines, or jobs (e.g. Cl";

/// Waiting and rescheduling stay with the supervisor, from the example on.
pub const SCHEDULING_2: &'static str =
    "aude Code's /schedule) to resume, retry, or \"come back later\" — a cloud reschedule escapes \
     Maestro's supervision, audit, and allowance accounting. When you must wait, stop and \
     wait in this terminal; Maestro resumes the work itself.";

/// The frame around the compiled workflow, part 1.
pub const WORKFLOW_1: &'static str =
    " WORKFLOW — the process for this run; follow these numbered steps in this exact order: ";

/// The frame around the compiled workflow, part 2.
pub const WORKFLOW_2: &'static str = " — END OF WORKFLOW.";

/// The execution order, for a first generation, part 1.
pub const ORDER_1: &'static str = " ORDER: ";

/// The execution order, for a first generation, part 2.
pub const ORDER_2: &'static str =
    " is the EXECUTION ORDER — work the issues strictly sequentially, one at a time, in \
     exactly that order by default. Your FIRST step after reading the issues, before touching \
     ANY code, is to validate that order against the real dependencies you find. If you agree \
     with it, proceed in that order without comment. If you believe a different order is \
     required, STOP before any code and raise an attention alert by replying with a message \
     that contains <";

/// The execution order, for a first generation, part 3.
pub const ORDER_3: &'static str =
    ">original: <the given order>; proposed: <your order>; reasoning: <why></";

/// The execution order, for a first generation, part 4.
pub const ORDER_4: &'static str =
    "> with the real orders and reasoning, then WAIT for the user's answer in this terminal \
     and proceed only in the order the user confirms — NEVER silently reorder. Never quote, \
     restate, or echo this marker string anywhere else in any reply — emit it at most once, \
     only as the actual alert.";

/// Whose order counts: the list.
pub const ORDER_OF_LIST: &'static str = "the order in which the issues are listed above";

/// Whose order counts: the epic's.
pub const ORDER_OF_EPIC: &'static str = "the order in which the epic lists its child issues";

/// The execution order, for every later generation, part 1.
pub const ORDER_REMINDER_1: &'static str =
    " ORDER: the execution order for this run was fixed at launch — the order the user \
     originally listed the issues, plus any deviation the user has explicitly confirmed \
     since. Do NOT re-plan it: continue strictly sequentially in that established order. If \
     you believe a deviation is now required, STOP before touching any code and raise an \
     attention alert by replying with a message that contains <";

/// The execution order, for every later generation, part 2.
pub const ORDER_REMINDER_2: &'static str =
    ">original: <the established order>; proposed: <your order>; reasoning: <why></";

/// The execution order, for every later generation, part 3.
pub const ORDER_REMINDER_3: &'static str =
    "> with the real orders and reasoning, then WAIT for the user's answer in this terminal \
     and proceed only in the order the user confirms — NEVER silently reorder. Never quote, \
     restate, or echo this marker string anywhere else in any reply — emit it at most once, \
     only as the actual alert.";

/// What a pull request has to carry, part 1.
pub const PR_REMINDER_1: &'static str =
    "If you open or update a pull request: its body must contain `Closes #N` (or `Fixes #N`) \
     for each issue it resolves, so GitHub auto-closes them on merge, and its title must list \
     every ";

/// What a pull request has to carry, part 2.
pub const PR_REMINDER_2: &'static str =
    " number this run covers, from the moment it is created (e.g. `feat(samurai): #76 #77 #78 \
     — summary`).";

/// The numbers a title lists, without epics.
pub const ISSUE_NUMBERS: &'static str = "issue";

/// The numbers a title lists, with epics.
pub const ISSUE_AND_EPIC_NUMBERS: &'static str = "issue/epic";

/// The handoff brief, part 1.
pub const HANDOFF_1: &'static str =
    "[Maestro Samurai] Handoff requested: this session crossed the configured context \
     threshold and will be handed off to a successor. Do ALL of the following, in order: (1) \
     Acknowledge IMMEDIATELY, before anything else, by replying with a message that contains \
     exactly <samurai-ack>";

/// The handoff brief, part 2.
pub const HANDOFF_2: &'static str =
    "</samurai-ack>. (2) Let in-flight subagents finish their CURRENT step only — start no \
     new work. (3) Ensure `.maestro/` is listed in this repo's .gitignore; add it if missing. \
     (4) Commit WIP to this run's branch: stage named paths only (never `git add .` or `git \
     add -A`), one Conventional Commit message (`type(scope): summary`). (5) Write the \
     handoff file to ";

/// The handoff brief, part 3.
pub const HANDOFF_3: &'static str =
    " — EXACTLY this repo-relative path inside this worktree, creating directories as needed; \
     NEVER invent another filename or location (never a HANDOFF-*.md at the repo root) — \
     following the PRD section 6 template EXACTLY, with these headings in this order: Goal / \
     Done / In progress / Decisions + why / Failed attempts / Repo state / Verify / Next \
     steps. \"Failed attempts\" is REQUIRED — record the dead ends you tried so your \
     successor does not repeat them. Keep every section to pointers (issue numbers, commit \
     SHAs, file paths), never content dumps. \"Repo state\" MUST record the current branch \
     and the HEAD SHA as they stand AFTER the WIP commit of step 4. (6) Only when steps 2-5 \
     are ALL done, reply with a message that contains exactly <samurai-handoff-written>";

/// The handoff brief, part 4.
pub const HANDOFF_4: &'static str =
    "</samurai-handoff-written>. Never quote, restate, or echo these marker strings anywhere \
     else in any reply — emit each one exactly once, only as the actual signal at its \
     required moment; a quoted marker is read as the real signal.";

/// The one corrective round after a handoff that did not validate, part 1.
pub const HANDOFF_FIX_1: &'static str = "[Maestro Samurai] Handoff INVALID: ";

/// The one corrective round after a handoff that did not validate, part 2.
pub const HANDOFF_FIX_2: &'static str = ". The gen-";

/// The one corrective round after a handoff that did not validate, part 3.
pub const HANDOFF_FIX_3: &'static str =
    " handoff is only complete when BOTH checks pass: the handoff file exists at ";

/// The one corrective round after a handoff that did not validate, part 4.
pub const HANDOFF_FIX_4: &'static str =
    " (PRD section 6 template), AND `git status --porcelain` reports no modified or staged \
     tracked files (untracked files are fine). (1) Acknowledge IMMEDIATELY by replying with a \
     message that contains exactly <samurai-ack>";

/// The one corrective round after a handoff that did not validate, part 5.
pub const HANDOFF_FIX_5: &'static str =
    "</samurai-ack> — note the value differs from the first instruction's; use exactly this \
     one. (2) Fix the failure above: write the handoff file and/or commit WIP to this run's \
     branch (stage named paths only, Conventional Commit message). If you wrote the handoff \
     under any other filename or directory (e.g. a HANDOFF-*.md at the repo root), MOVE it to \
     exactly ";

/// The one corrective round after a handoff that did not validate, part 6.
pub const HANDOFF_FIX_6: &'static str =
    ". (3) Then reply with a message that contains exactly <samurai-handoff-written>";

/// The one corrective round after a handoff that did not validate, part 7.
pub const HANDOFF_FIX_7: &'static str =
    "</samurai-handoff-written>. Never quote, restate, or echo these marker strings anywhere \
     else in any reply — emit each one exactly once, only as the actual signal at its \
     required moment. This is the final attempt before a human is alerted.";

/// The soft wind-down, part 1.
pub const WINDDOWN_1: &'static str =
    "[Maestro Samurai] Allowance wind-down: the token allowance for this account is \
     approaching its limit. Do the following: (1) Acknowledge IMMEDIATELY, before anything \
     else, by replying with a message that contains exactly <samurai-ack>";

/// The soft wind-down, part 2.
pub const WINDDOWN_2: &'static str =
    "</samurai-ack>. (2) From now on spawn NO new subagents; let in-flight subagents finish \
     their CURRENT step only, then wrap up. (3) Prefer finishing and committing small \
     complete units of work — a park instruction may follow shortly, and anything uncommitted \
     at that point is at risk. No file needs to be written for this instruction. Never quote, \
     restate, or echo the marker string anywhere else in any reply — emit it exactly once, \
     only as the actual signal.";

/// The end of a wind-down, part 1.
pub const ALLCLEAR_1: &'static str =
    "[Maestro Samurai] Allowance all-clear: the token allowance has recovered, so the earlier \
     wind-down no longer applies. Do the following: (1) Acknowledge IMMEDIATELY, before \
     anything else, by replying with a message that contains exactly <samurai-ack>";

/// The end of a wind-down, part 2.
pub const ALLCLEAR_2: &'static str =
    "</samurai-ack>. (2) Resume normal operation: you may spawn subagents again and work at \
     your normal pace and parallelism. No file needs to be written for this instruction. \
     Never quote, restate, or echo the marker string anywhere else in any reply — emit it \
     exactly once, only as the actual signal.";

/// The park brief, part 1.
pub const PARK_1: &'static str =
    "[Maestro Samurai] PARK requested: the token allowance is nearly spent, so this session \
     is being parked; work resumes automatically after the allowance window resets. Do ALL of \
     the following, in order: (1) Acknowledge IMMEDIATELY, before anything else, by replying \
     with a message that contains exactly <samurai-ack>";

/// The park brief, part 2.
pub const PARK_2: &'static str =
    "</samurai-ack>. (2) Finish the CURRENT atomic step ONLY — let in-flight subagents finish \
     their current step, start NOTHING new. (3) Ensure `.maestro/` is listed in this repo's \
     .gitignore; add it if missing. (4) Commit ALL WIP to this run's branch: stage named \
     paths only (never `git add .` or `git add -A`), one Conventional Commit message \
     (`type(scope): summary`). (5) Write or update the handoff file at ";

/// The park brief, part 3.
pub const PARK_3: &'static str =
    " — EXACTLY this repo-relative path inside this worktree, creating directories as needed; \
     NEVER invent another filename or location (never a HANDOFF-*.md at the repo root) — \
     following the PRD section 6 template EXACTLY, with these headings in this order: Goal / \
     Done / In progress / Decisions + why / Failed attempts / Repo state / Verify / Next \
     steps. It doubles as the park state your successor resumes from, so keep every section \
     to pointers (issue numbers, commit SHAs, file paths), never content dumps. \"Repo \
     state\" MUST record the current branch and the HEAD SHA as they stand AFTER the WIP \
     commit of step 4. (6) Only when steps 2-5 are ALL done, reply with a message that \
     contains exactly <samurai-handoff-written>";

/// The park brief, part 4.
pub const PARK_4: &'static str =
    "</samurai-handoff-written>. Never quote, restate, or echo these marker strings anywhere \
     else in any reply — emit each one exactly once, only as the actual signal at its \
     required moment; a quoted marker is read as the real signal.";

/// The one corrective round after a park that did not validate, part 1.
pub const PARK_FIX_1: &'static str = "[Maestro Samurai] Park INVALID: ";

/// The one corrective round after a park that did not validate, part 2.
pub const PARK_FIX_2: &'static str = ". The gen-";

/// The one corrective round after a park that did not validate, part 3.
pub const PARK_FIX_3: &'static str =
    " park is only complete when BOTH checks pass: the handoff file exists at ";

/// The one corrective round after a park that did not validate, part 4.
pub const PARK_FIX_4: &'static str =
    " (PRD section 6 template), AND `git status --porcelain` reports no modified or staged \
     tracked files (untracked files are fine). (1) Acknowledge IMMEDIATELY by replying with a \
     message that contains exactly <samurai-ack>";

/// The one corrective round after a park that did not validate, part 5.
pub const PARK_FIX_5: &'static str =
    "</samurai-ack> — note the value differs from the first instruction's; use exactly this \
     one. (2) Fix the failure above: write/update the handoff file and/or commit ALL WIP to \
     this run's branch (stage named paths only, Conventional Commit message). If you wrote \
     the handoff under any other filename or directory (e.g. a HANDOFF-*.md at the repo \
     root), MOVE it to exactly ";

/// The one corrective round after a park that did not validate, part 6.
pub const PARK_FIX_6: &'static str =
    ". (3) Then reply with a message that contains exactly <samurai-handoff-written>";

/// The one corrective round after a park that did not validate, part 7.
pub const PARK_FIX_7: &'static str =
    "</samurai-handoff-written>. Never quote, restate, or echo these marker strings anywhere \
     else in any reply — emit each one exactly once, only as the actual signal at its \
     required moment. This is the final attempt before a human is alerted.";

/// The opening of a successor's ritual, part 1.
pub const SUCCESSOR_1: &'static str = "[Maestro Samurai] You are generation ";

/// The opening of a successor's ritual, part 2.
pub const SUCCESSOR_2: &'static str = " for ";

/// The opening of a successor's ritual, part 3.
pub const SUCCESSOR_3: &'static str = ", successor to generation ";

/// The opening of a successor's ritual, part 4.
pub const SUCCESSOR_4: &'static str = ". Read the handoff file at ";

/// The opening of a successor's ritual, part 5.
pub const SUCCESSOR_5: &'static str =
    " IN FULL before doing anything else — it and GitHub are your only sources of truth.";

/// The recorded HEAD was confirmed.
pub const HEAD_VERIFIED: &'static str =
    " Maestro verified that this repository's current HEAD equals the SHA recorded in the \
     handoff's \"Repo state\" section, so the verify step is already satisfied: SKIP the \
     commands in the handoff's Verify section and continue directly with its Next steps.";

/// The recorded HEAD was not confirmed.
pub const HEAD_UNVERIFIED: &'static str =
    " Maestro could NOT confirm that this repository's current HEAD matches the SHA recorded \
     in the handoff's \"Repo state\" section. You MUST run every command in the handoff's \
     Verify section FIRST, and trust NOTHING the handoff claims that those commands do not \
     confirm — investigate and fix any failure before moving on. Only then continue with the \
     handoff's Next steps.";

/// What to read: several epics.
pub const READ_EPICS: &'static str =
    "read the epics' GitHub issues, ALL of their comments, and EVERY child issue they \
     reference";

/// What to read: one epic.
pub const READ_EPIC: &'static str =
    "read the epic's GitHub issue, ALL of its comments, and EVERY child issue it references";

/// What to read: several issues and no epic.
pub const READ_ISSUES: &'static str =
    "read EACH of this run's GitHub issues and ALL of their comments";

/// What to read: one issue and no epic.
pub const READ_ISSUE: &'static str = "read this run's GitHub issue and ALL of its comments";

/// Where progress goes: several issues and no epic.
pub const PROGRESS_ISSUES: &'static str =
    "comment progress on EACH of those GitHub issues as they complete, and open the run's \
     pull request for finished work and keep it updated";

/// Where progress goes: one issue and no epic.
pub const PROGRESS_ISSUE: &'static str =
    "comment progress on that GitHub issue as work completes, and open the run's pull request \
     for finished work and keep it updated";

/// Where progress goes: several epics.
pub const PROGRESS_EPICS: &'static str =
    "comment progress on the epics' GitHub issues as issues complete, and open the run's pull \
     request for finished work and keep it updated";

/// Where progress goes: one epic.
pub const PROGRESS_EPIC: &'static str =
    "comment progress on the epic's GitHub issue as issues complete, and open the run's pull \
     request for finished work and keep it updated";

/// Where an unready issue is reported: itself.
pub const UNREADY_ISSUE: &'static str = "say so in that issue's progress comment";

/// Where an unready issue is reported: the epics.
pub const UNREADY_EPICS: &'static str = "say so in your progress comment on the epics";

/// Where an unready issue is reported: the epic.
pub const UNREADY_EPIC: &'static str = "say so in your progress comment on the epic";

/// Whose worktree it is: the one epic's.
pub const WORKTREE_OF_EPIC: &'static str =
    "This directory is the epic's dedicated worktree on its own branch.";

/// Whose worktree it is: the run's.
pub const WORKTREE_OF_RUN: &'static str =
    "This directory is this run's dedicated worktree on its own branch.";

/// Reading without a pinned repository.
pub const GH_UNPINNED: &'static str = " with the `gh` CLI, run from this directory";

/// The caution that goes with a missing pin.
pub const CAUTION: &'static str =
    " CAUTION: Maestro could not determine this repository's origin remote, so no `--repo` \
     pin is available — before running any `gh` command, double-check it targets the correct \
     repository.";

/// Stand-alone issues beside epics, part 1.
pub const PLUS_ISSUES_1: &'static str = ", plus the standalone issues ";

/// Stand-alone issues beside epics, part 2.
pub const PLUS_ISSUES_2: &'static str = " and ALL of their comments";

/// A stand-alone issue beside epics, part 1.
pub const PLUS_ISSUE_1: &'static str = ", plus the standalone issue ";

/// A stand-alone issue beside epics, part 2.
pub const PLUS_ISSUE_2: &'static str = " and ALL of its comments";

/// Reading with a pinned repository, part 1.
pub const GH_PINNED_1: &'static str = " with the `gh` CLI, passing `--repo ";

/// Reading with a pinned repository, part 2.
pub const GH_PINNED_2: &'static str = "` explicitly on every `gh` command";

/// Commenting with a pinned repository, part 1.
pub const PROGRESS_PIN_1: &'static str = " (again via `gh` with `--repo ";

/// Commenting with a pinned repository, part 2.
pub const PROGRESS_PIN_2: &'static str = "` on every command)";

/// Pull-request rules of a first generation, part 1.
pub const LAUNCH_PR_1: &'static str =
    "every PR body must contain `Closes #N` (or `Fixes #N`) for each issue it resolves so \
     GitHub auto-closes them on merge, and every PR title must list every ";

/// Pull-request rules of a first generation, part 2.
pub const LAUNCH_PR_2: &'static str =
    " number this run covers, from the moment it is created (e.g. `feat(samurai): #76 #77 #78 \
     — summary`)";

/// The launch brief, part 1.
pub const LAUNCH_1: &'static str =
    "[Maestro Samurai] You are generation 1, the FIRST orchestrator, for ";

/// The launch brief, part 2.
pub const LAUNCH_2: &'static str = ". ";

/// The launch brief, part 3.
pub const LAUNCH_3: &'static str = " Do the following: (1) ";

/// The launch brief, part 4.
pub const LAUNCH_4: &'static str =
    ". (2) Assess whether each issue is AGENT-READY — scope clear enough to implement, \
     acceptance criteria stated, no open product or design decision that needs a human, and \
     every command named in its acceptance criteria exists and is RUNNABLE in this repo. \
     VERIFY runnability before treating an issue as agent-ready — check the repo instead of \
     assuming (e.g. the script is listed in package.json's scripts table, the tool answers a \
     `--version`/`--help` probe, the build target exists); an issue whose acceptance criteria \
     name a command that is missing is NOT agent-ready. Work only the ready ones. For each \
     issue that is NOT ready, comment on it saying exactly what is missing (for a missing \
     command, name exactly which command), exclude it from this run, and ";

/// The launch brief, part 5.
pub const LAUNCH_5: &'static str =
    " instead of guessing at the intent. (3) Plan the work across the agent-ready issues \
     before touching code. (4) Work them via SMALL idempotent subagent tasks, each committing \
     its completed step to THIS branch (stage named paths only, never `git add .` or `git add \
     -A`; Conventional Commit messages `type(scope): summary`). (5) ";

/// The launch brief, part 6.
pub const LAUNCH_6: &'static str =
    ". (6) NEVER switch to, commit to, or push any other branch, and NEVER touch any \
     repository other than this one.";

/// Reading in recovery, with a pinned repository, part 1.
pub const RECOVERY_READ_PINNED_1: &'static str =
    "read this run's GitHub issue(s) and ALL of their comments with the `gh` CLI, passing \
     `--repo ";

/// Reading in recovery, with a pinned repository, part 2.
pub const RECOVERY_READ_PINNED_2: &'static str = "` explicitly on every `gh` command";

/// Commenting in recovery, with a pinned repository, part 1.
pub const RECOVERY_COMMENT_PINNED_1: &'static str =
    "comment on this run's GitHub issue(s) (again via `gh` with `--repo ";

/// Commenting in recovery, with a pinned repository, part 2.
pub const RECOVERY_COMMENT_PINNED_2: &'static str = "`)";

/// Reading in recovery, without a pin.
pub const RECOVERY_READ: &'static str =
    "read this run's GitHub issue(s) and ALL of their comments with the `gh` CLI, run from \
     this directory";

/// Commenting in recovery, without a pin.
pub const RECOVERY_COMMENT: &'static str = "comment on this run's GitHub issue(s)";

/// The recovery ritual, part 1.
pub const RECOVERY_1: &'static str = "[Maestro Samurai] RECOVERY MODE: you are generation ";

/// The recovery ritual, part 2.
pub const RECOVERY_2: &'static str = " for ";

/// The recovery ritual, part 3.
pub const RECOVERY_3: &'static str = ". Generation ";

/// The recovery ritual, part 4.
pub const RECOVERY_4: &'static str =
    " died without a valid handoff file, so there is nothing to hand off to you. Reconstruct \
     the state of the work from three sources: (1) run `git log --oneline -20` in this \
     repository; (2) ";

/// The recovery ritual, part 5.
pub const RECOVERY_5: &'static str =
    "; (3) read the pre-digested transcript summary Maestro extracted to ";

/// The recovery ritual, part 6.
pub const RECOVERY_6: &'static str =
    " — treat it as hints, NOT as truth. Then run the project's standard verification (build \
     + tests) BEFORE trusting or continuing anything — investigate and fix any failure first. \
     Once verification passes, ";

/// The recovery ritual, part 7.
pub const RECOVERY_7: &'static str = " that generation ";

/// The recovery ritual, part 8.
pub const RECOVERY_8: &'static str =
    " has taken over in recovery mode, then continue this run's remaining work.";

/// The journaling rider, part 1.
pub const JOURNAL_1: &'static str =
    "[Maestro Samurai] Journaling: when you hit friction — a bottleneck, an error, a tooling \
     gap, a process improvement idea, or a concern — append ONE line to ";

/// The journaling rider, part 2.
pub const JOURNAL_2: &'static str =
    " in the form {\"ts\":\"<ISO \
     8601>\",\"category\":\"BOTTLENECK\"|\"ERROR\"|\"IMPROVEMENT\"|\"SKILL\"|\"CONCERN\",\"text\":\"<short \
     description>\",\"project\":\"<repo path>\",\"agent\":\"<your epic/generation id>\"}, \
     e.g. via `echo '<json>' >> \"";

/// The journaling rider, part 3.
pub const JOURNAL_3: &'static str =
    "\"`. Malformed lines are skipped by the reader, so a bad line cannot break the journal — \
     but NEVER rewrite or delete existing lines: the journal is append-only.";

// ---------------------------------------------------------------------------
// Every piece is a single line
// ---------------------------------------------------------------------------

/// The clauses that every brief shares.
pub(crate) proof fn lemma_clause_lines()
    ensures
        single_line(RUN_COMPLETE_TAG@),
        single_line(ORDER_ALERT_TAG@),
        single_line(COMPLETION_1@),
        COMPLETION_1@.len() > 0 && COMPLETION_1@.last() == '<',
        single_line(COMPLETION_2@),
        single_line(COMPLETION_3@),
        COMPLETION_3@.len() > 0 && COMPLETION_3@[0] == '>',
        single_line(SCHEDULING_1@),
        single_line(SCHEDULING_2@),
        single_line(WORKFLOW_1@),
        single_line(WORKFLOW_2@),
{
    assert(single_line(RUN_COMPLETE_TAG@)) by {
        reveal_strlit("samurai-run-complete");
    }
    assert(single_line(ORDER_ALERT_TAG@)) by {
        reveal_strlit("samurai-order-alert");
    }
    assert(single_line(COMPLETION_1@) && COMPLETION_1@.len() > 0 && COMPLETION_1@.last() == '<') by {
        reveal_strlit(
            " COMPLETION: the run is finished when the run's pull request is OPEN and EVERY \
             issue this run works is either CLOSED on GitHub or linked for close by that PR \
             (a `Closes #N`/`Fixes #N` reference in its body — the human's merge then closes \
             it), or when the PR was already MERGED and every issue is CLOSED. At that moment \
             declare completion by replying with a message that contains exactly <",
        );
    }
    assert(single_line(COMPLETION_2@)) by {
        reveal_strlit(">issues #<a> #<b> pr #<n></");
    }
    assert(single_line(COMPLETION_3@) && COMPLETION_3@.len() > 0 && COMPLETION_3@[0] == '>') by {
        reveal_strlit(
            "> with the real numbers — list every issue number this run worked, then the pull \
             request number (for example: issues #77 #78 pr #85, inside the tag). Maestro \
             verifies each claimed issue and the PR against GitHub via `gh` before the run is \
             marked complete, so declare only when it is actually true. Never quote, restate, \
             or echo this marker string anywhere else in any reply — emit it exactly once, \
             only as the actual signal at that moment.",
        );
    }
    assert(single_line(SCHEDULING_1@)) by {
        reveal_strlit(
            " SCHEDULING: all waiting and rescheduling is MAESTRO'S job, handled by its own \
             LOCAL timers. NEVER create cloud-scheduled agents, routines, or jobs (e.g. Cl",
        );
    }
    assert(single_line(SCHEDULING_2@)) by {
        reveal_strlit(
            "aude Code's /schedule) to resume, retry, or \"come back later\" — a cloud reschedule \
             escapes Maestro's supervision, audit, and allowance accounting. When you must \
             wait, stop and wait in this terminal; Maestro resumes the work itself.",
        );
    }
    assert(single_line(WORKFLOW_1@)) by {
        reveal_strlit(
            " WORKFLOW — the process for this run; follow these numbered steps in this exact \
             order: ",
        );
    }
    assert(single_line(WORKFLOW_2@)) by {
        reveal_strlit(" — END OF WORKFLOW.");
    }
}

/// The order and pull-request clauses.
pub(crate) proof fn lemma_order_lines()
    ensures
        single_line(ORDER_1@),
        single_line(ORDER_2@),
        single_line(ORDER_3@),
        single_line(ORDER_4@),
        single_line(ORDER_OF_LIST@),
        single_line(ORDER_OF_EPIC@),
        single_line(ORDER_REMINDER_1@),
        single_line(ORDER_REMINDER_2@),
        single_line(ORDER_REMINDER_3@),
        single_line(PR_REMINDER_1@),
        single_line(PR_REMINDER_2@),
        single_line(ISSUE_NUMBERS@),
        single_line(ISSUE_AND_EPIC_NUMBERS@),
{
    assert(single_line(ORDER_1@)) by {
        reveal_strlit(" ORDER: ");
    }
    assert(single_line(ORDER_2@)) by {
        reveal_strlit(
            " is the EXECUTION ORDER — work the issues strictly sequentially, one at a time, \
             in exactly that order by default. Your FIRST step after reading the issues, \
             before touching ANY code, is to validate that order against the real \
             dependencies you find. If you agree with it, proceed in that order without \
             comment. If you believe a different order is required, STOP before any code and \
             raise an attention alert by replying with a message that contains <",
        );
    }
    assert(single_line(ORDER_3@)) by {
        reveal_strlit(
            ">original: <the given order>; proposed: <your order>; reasoning: <why></",
        );
    }
    assert(single_line(ORDER_4@)) by {
        reveal_strlit(
            "> with the real orders and reasoning, then WAIT for the user's answer in this \
             terminal and proceed only in the order the user confirms — NEVER silently \
             reorder. Never quote, restate, or echo this marker string anywhere else in any \
             reply — emit it at most once, only as the actual alert.",
        );
    }
    assert(single_line(ORDER_OF_LIST@)) by {
        reveal_strlit("the order in which the issues are listed above");
    }
    assert(single_line(ORDER_OF_EPIC@)) by {
        reveal_strlit("the order in which the epic lists its child issues");
    }
    assert(single_line(ORDER_REMINDER_1@)) by {
        reveal_strlit(
            " ORDER: the execution order for this run was fixed at launch — the order the \
             user originally listed the issues, plus any deviation the user has explicitly \
             confirmed since. Do NOT re-plan it: continue strictly sequentially in that \
             established order. If you believe a deviation is now required, STOP before \
             touching any code and raise an attention alert by replying with a message that \
             contains <",
        );
    }
    assert(single_line(ORDER_REMINDER_2@)) by {
        reveal_strlit(
            ">original: <the established order>; proposed: <your order>; reasoning: <why></",
        );
    }
    assert(single_line(ORDER_REMINDER_3@)) by {
        reveal_strlit(
            "> with the real orders and reasoning, then WAIT for the user's answer in this \
             terminal and proceed only in the order the user confirms — NEVER silently \
             reorder. Never quote, restate, or echo this marker string anywhere else in any \
             reply — emit it at most once, only as the actual alert.",
        );
    }
    assert(single_line(PR_REMINDER_1@)) by {
        reveal_strlit(
            "If you open or update a pull request: its body must contain `Closes #N` (or \
             `Fixes #N`) for each issue it resolves, so GitHub auto-closes them on merge, and \
             its title must list every ",
        );
    }
    assert(single_line(PR_REMINDER_2@)) by {
        reveal_strlit(
            " number this run covers, from the moment it is created (e.g. `feat(samurai): #76 \
             #77 #78 — summary`).",
        );
    }
    assert(single_line(ISSUE_NUMBERS@)) by {
        reveal_strlit("issue");
    }
    assert(single_line(ISSUE_AND_EPIC_NUMBERS@)) by {
        reveal_strlit("issue/epic");
    }
}

/// The handoff brief and its corrective round.
pub(crate) proof fn lemma_handoff_lines()
    ensures
        single_line(HANDOFF_1@),
        no_bracket(HANDOFF_1@.take(HANDOFF_1@.len() - "<samurai-ack>"@.len())),
        ends_with(HANDOFF_1@, "<samurai-ack>"@),
        single_line(HANDOFF_2@),
        no_bracket(HANDOFF_2@.skip("</samurai-ack>"@.len() as int)),
        starts_with(HANDOFF_2@, "</samurai-ack>"@),
        single_line(HANDOFF_3@),
        no_bracket(HANDOFF_3@.take(HANDOFF_3@.len() - "<samurai-handoff-written>"@.len())),
        ends_with(HANDOFF_3@, "<samurai-handoff-written>"@),
        single_line(HANDOFF_4@),
        starts_with(HANDOFF_4@, "</samurai-handoff-written>"@),
        single_line(HANDOFF_FIX_1@),
        no_bracket(HANDOFF_FIX_1@),
        single_line(HANDOFF_FIX_2@),
        no_bracket(HANDOFF_FIX_2@),
        single_line(HANDOFF_FIX_3@),
        no_bracket(HANDOFF_FIX_3@),
        single_line(HANDOFF_FIX_4@),
        no_bracket(HANDOFF_FIX_4@.take(HANDOFF_FIX_4@.len() - "<samurai-ack>"@.len())),
        ends_with(HANDOFF_FIX_4@, "<samurai-ack>"@),
        single_line(HANDOFF_FIX_5@),
        no_bracket(HANDOFF_FIX_5@.skip("</samurai-ack>"@.len() as int)),
        starts_with(HANDOFF_FIX_5@, "</samurai-ack>"@),
        single_line(HANDOFF_FIX_6@),
        no_bracket(HANDOFF_FIX_6@.take(HANDOFF_FIX_6@.len() - "<samurai-handoff-written>"@.len())),
        ends_with(HANDOFF_FIX_6@, "<samurai-handoff-written>"@),
        single_line(HANDOFF_FIX_7@),
        starts_with(HANDOFF_FIX_7@, "</samurai-handoff-written>"@),
{
    assert(single_line(HANDOFF_1@) && ends_with(HANDOFF_1@, "<samurai-ack>"@) && no_bracket(HANDOFF_1@.take(HANDOFF_1@.len() - "<samurai-ack>"@.len()))) by {
        reveal_strlit(
            "[Maestro Samurai] Handoff requested: this session crossed the configured context \
             threshold and will be handed off to a successor. Do ALL of the following, in \
             order: (1) Acknowledge IMMEDIATELY, before anything else, by replying with a \
             message that contains exactly <samurai-ack>",
        );
        reveal_strlit("<samurai-ack>");
        assert(HANDOFF_1@.skip(HANDOFF_1@.len() - "<samurai-ack>"@.len()) =~= "<samurai-ack>"@);
    }
    assert(single_line(HANDOFF_2@) && starts_with(HANDOFF_2@, "</samurai-ack>"@) && no_bracket(HANDOFF_2@.skip("</samurai-ack>"@.len() as int))) by {
        reveal_strlit(
            "</samurai-ack>. (2) Let in-flight subagents finish their CURRENT step only — \
             start no new work. (3) Ensure `.maestro/` is listed in this repo's .gitignore; \
             add it if missing. (4) Commit WIP to this run's branch: stage named paths only \
             (never `git add .` or `git add -A`), one Conventional Commit message \
             (`type(scope): summary`). (5) Write the handoff file to ",
        );
        reveal_strlit("</samurai-ack>");
        assert(HANDOFF_2@.take("</samurai-ack>"@.len() as int) =~= "</samurai-ack>"@);
    }
    assert(single_line(HANDOFF_3@) && ends_with(HANDOFF_3@, "<samurai-handoff-written>"@) && no_bracket(HANDOFF_3@.take(HANDOFF_3@.len() - "<samurai-handoff-written>"@.len()))) by {
        reveal_strlit(
            " — EXACTLY this repo-relative path inside this worktree, creating directories as \
             needed; NEVER invent another filename or location (never a HANDOFF-*.md at the \
             repo root) — following the PRD section 6 template EXACTLY, with these headings \
             in this order: Goal / Done / In progress / Decisions + why / Failed attempts / \
             Repo state / Verify / Next steps. \"Failed attempts\" is REQUIRED — record the \
             dead ends you tried so your successor does not repeat them. Keep every section \
             to pointers (issue numbers, commit SHAs, file paths), never content dumps. \
             \"Repo state\" MUST record the current branch and the HEAD SHA as they stand \
             AFTER the WIP commit of step 4. (6) Only when steps 2-5 are ALL done, reply with \
             a message that contains exactly <samurai-handoff-written>",
        );
        reveal_strlit("<samurai-handoff-written>");
        assert(HANDOFF_3@.skip(HANDOFF_3@.len() - "<samurai-handoff-written>"@.len()) =~= "<samurai-handoff-written>"@);
    }
    assert(single_line(HANDOFF_4@) && starts_with(HANDOFF_4@, "</samurai-handoff-written>"@)) by {
        reveal_strlit(
            "</samurai-handoff-written>. Never quote, restate, or echo these marker strings \
             anywhere else in any reply — emit each one exactly once, only as the actual \
             signal at its required moment; a quoted marker is read as the real signal.",
        );
        reveal_strlit("</samurai-handoff-written>");
        assert(HANDOFF_4@.take("</samurai-handoff-written>"@.len() as int) =~= "</samurai-handoff-written>"@);
    }
    assert(single_line(HANDOFF_FIX_1@) && no_bracket(HANDOFF_FIX_1@)) by {
        reveal_strlit("[Maestro Samurai] Handoff INVALID: ");
    }
    assert(single_line(HANDOFF_FIX_2@) && no_bracket(HANDOFF_FIX_2@)) by {
        reveal_strlit(". The gen-");
    }
    assert(single_line(HANDOFF_FIX_3@) && no_bracket(HANDOFF_FIX_3@)) by {
        reveal_strlit(
            " handoff is only complete when BOTH checks pass: the handoff file exists at ",
        );
    }
    assert(single_line(HANDOFF_FIX_4@) && ends_with(HANDOFF_FIX_4@, "<samurai-ack>"@) && no_bracket(HANDOFF_FIX_4@.take(HANDOFF_FIX_4@.len() - "<samurai-ack>"@.len()))) by {
        reveal_strlit(
            " (PRD section 6 template), AND `git status --porcelain` reports no modified or \
             staged tracked files (untracked files are fine). (1) Acknowledge IMMEDIATELY by \
             replying with a message that contains exactly <samurai-ack>",
        );
        reveal_strlit("<samurai-ack>");
        assert(HANDOFF_FIX_4@.skip(HANDOFF_FIX_4@.len() - "<samurai-ack>"@.len()) =~= "<samurai-ack>"@);
    }
    assert(single_line(HANDOFF_FIX_5@) && starts_with(HANDOFF_FIX_5@, "</samurai-ack>"@) && no_bracket(HANDOFF_FIX_5@.skip("</samurai-ack>"@.len() as int))) by {
        reveal_strlit(
            "</samurai-ack> — note the value differs from the first instruction's; use \
             exactly this one. (2) Fix the failure above: write the handoff file and/or \
             commit WIP to this run's branch (stage named paths only, Conventional Commit \
             message). If you wrote the handoff under any other filename or directory (e.g. a \
             HANDOFF-*.md at the repo root), MOVE it to exactly ",
        );
        reveal_strlit("</samurai-ack>");
        assert(HANDOFF_FIX_5@.take("</samurai-ack>"@.len() as int) =~= "</samurai-ack>"@);
    }
    assert(single_line(HANDOFF_FIX_6@) && ends_with(HANDOFF_FIX_6@, "<samurai-handoff-written>"@) && no_bracket(HANDOFF_FIX_6@.take(HANDOFF_FIX_6@.len() - "<samurai-handoff-written>"@.len()))) by {
        reveal_strlit(
            ". (3) Then reply with a message that contains exactly <samurai-handoff-written>",
        );
        reveal_strlit("<samurai-handoff-written>");
        assert(HANDOFF_FIX_6@.skip(HANDOFF_FIX_6@.len() - "<samurai-handoff-written>"@.len()) =~= "<samurai-handoff-written>"@);
    }
    assert(single_line(HANDOFF_FIX_7@) && starts_with(HANDOFF_FIX_7@, "</samurai-handoff-written>"@)) by {
        reveal_strlit(
            "</samurai-handoff-written>. Never quote, restate, or echo these marker strings \
             anywhere else in any reply — emit each one exactly once, only as the actual \
             signal at its required moment. This is the final attempt before a human is \
             alerted.",
        );
        reveal_strlit("</samurai-handoff-written>");
        assert(HANDOFF_FIX_7@.take("</samurai-handoff-written>"@.len() as int) =~= "</samurai-handoff-written>"@);
    }
}

/// The wind-down and its end.
pub(crate) proof fn lemma_winddown_lines()
    ensures
        single_line(WINDDOWN_1@),
        ends_with(WINDDOWN_1@, "<samurai-ack>"@),
        single_line(WINDDOWN_2@),
        starts_with(WINDDOWN_2@, "</samurai-ack>"@),
        single_line(ALLCLEAR_1@),
        ends_with(ALLCLEAR_1@, "<samurai-ack>"@),
        single_line(ALLCLEAR_2@),
        starts_with(ALLCLEAR_2@, "</samurai-ack>"@),
{
    assert(single_line(WINDDOWN_1@) && ends_with(WINDDOWN_1@, "<samurai-ack>"@)) by {
        reveal_strlit(
            "[Maestro Samurai] Allowance wind-down: the token allowance for this account is \
             approaching its limit. Do the following: (1) Acknowledge IMMEDIATELY, before \
             anything else, by replying with a message that contains exactly <samurai-ack>",
        );
        reveal_strlit("<samurai-ack>");
        assert(WINDDOWN_1@.skip(WINDDOWN_1@.len() - "<samurai-ack>"@.len()) =~= "<samurai-ack>"@);
    }
    assert(single_line(WINDDOWN_2@) && starts_with(WINDDOWN_2@, "</samurai-ack>"@)) by {
        reveal_strlit(
            "</samurai-ack>. (2) From now on spawn NO new subagents; let in-flight subagents \
             finish their CURRENT step only, then wrap up. (3) Prefer finishing and \
             committing small complete units of work — a park instruction may follow shortly, \
             and anything uncommitted at that point is at risk. No file needs to be written \
             for this instruction. Never quote, restate, or echo the marker string anywhere \
             else in any reply — emit it exactly once, only as the actual signal.",
        );
        reveal_strlit("</samurai-ack>");
        assert(WINDDOWN_2@.take("</samurai-ack>"@.len() as int) =~= "</samurai-ack>"@);
    }
    assert(single_line(ALLCLEAR_1@) && ends_with(ALLCLEAR_1@, "<samurai-ack>"@)) by {
        reveal_strlit(
            "[Maestro Samurai] Allowance all-clear: the token allowance has recovered, so the \
             earlier wind-down no longer applies. Do the following: (1) Acknowledge \
             IMMEDIATELY, before anything else, by replying with a message that contains \
             exactly <samurai-ack>",
        );
        reveal_strlit("<samurai-ack>");
        assert(ALLCLEAR_1@.skip(ALLCLEAR_1@.len() - "<samurai-ack>"@.len()) =~= "<samurai-ack>"@);
    }
    assert(single_line(ALLCLEAR_2@) && starts_with(ALLCLEAR_2@, "</samurai-ack>"@)) by {
        reveal_strlit(
            "</samurai-ack>. (2) Resume normal operation: you may spawn subagents again and \
             work at your normal pace and parallelism. No file needs to be written for this \
             instruction. Never quote, restate, or echo the marker string anywhere else in \
             any reply — emit it exactly once, only as the actual signal.",
        );
        reveal_strlit("</samurai-ack>");
        assert(ALLCLEAR_2@.take("</samurai-ack>"@.len() as int) =~= "</samurai-ack>"@);
    }
}

/// The park brief and its corrective round.
pub(crate) proof fn lemma_park_lines()
    ensures
        single_line(PARK_1@),
        no_bracket(PARK_1@.take(PARK_1@.len() - "<samurai-ack>"@.len())),
        ends_with(PARK_1@, "<samurai-ack>"@),
        single_line(PARK_2@),
        no_bracket(PARK_2@.skip("</samurai-ack>"@.len() as int)),
        starts_with(PARK_2@, "</samurai-ack>"@),
        single_line(PARK_3@),
        no_bracket(PARK_3@.take(PARK_3@.len() - "<samurai-handoff-written>"@.len())),
        ends_with(PARK_3@, "<samurai-handoff-written>"@),
        single_line(PARK_4@),
        starts_with(PARK_4@, "</samurai-handoff-written>"@),
        single_line(PARK_FIX_1@),
        no_bracket(PARK_FIX_1@),
        single_line(PARK_FIX_2@),
        no_bracket(PARK_FIX_2@),
        single_line(PARK_FIX_3@),
        no_bracket(PARK_FIX_3@),
        single_line(PARK_FIX_4@),
        no_bracket(PARK_FIX_4@.take(PARK_FIX_4@.len() - "<samurai-ack>"@.len())),
        ends_with(PARK_FIX_4@, "<samurai-ack>"@),
        single_line(PARK_FIX_5@),
        no_bracket(PARK_FIX_5@.skip("</samurai-ack>"@.len() as int)),
        starts_with(PARK_FIX_5@, "</samurai-ack>"@),
        single_line(PARK_FIX_6@),
        no_bracket(PARK_FIX_6@.take(PARK_FIX_6@.len() - "<samurai-handoff-written>"@.len())),
        ends_with(PARK_FIX_6@, "<samurai-handoff-written>"@),
        single_line(PARK_FIX_7@),
        starts_with(PARK_FIX_7@, "</samurai-handoff-written>"@),
{
    assert(single_line(PARK_1@) && ends_with(PARK_1@, "<samurai-ack>"@) && no_bracket(PARK_1@.take(PARK_1@.len() - "<samurai-ack>"@.len()))) by {
        reveal_strlit(
            "[Maestro Samurai] PARK requested: the token allowance is nearly spent, so this \
             session is being parked; work resumes automatically after the allowance window \
             resets. Do ALL of the following, in order: (1) Acknowledge IMMEDIATELY, before \
             anything else, by replying with a message that contains exactly <samurai-ack>",
        );
        reveal_strlit("<samurai-ack>");
        assert(PARK_1@.skip(PARK_1@.len() - "<samurai-ack>"@.len()) =~= "<samurai-ack>"@);
    }
    assert(single_line(PARK_2@) && starts_with(PARK_2@, "</samurai-ack>"@) && no_bracket(PARK_2@.skip("</samurai-ack>"@.len() as int))) by {
        reveal_strlit(
            "</samurai-ack>. (2) Finish the CURRENT atomic step ONLY — let in-flight \
             subagents finish their current step, start NOTHING new. (3) Ensure `.maestro/` \
             is listed in this repo's .gitignore; add it if missing. (4) Commit ALL WIP to \
             this run's branch: stage named paths only (never `git add .` or `git add -A`), \
             one Conventional Commit message (`type(scope): summary`). (5) Write or update \
             the handoff file at ",
        );
        reveal_strlit("</samurai-ack>");
        assert(PARK_2@.take("</samurai-ack>"@.len() as int) =~= "</samurai-ack>"@);
    }
    assert(single_line(PARK_3@) && ends_with(PARK_3@, "<samurai-handoff-written>"@) && no_bracket(PARK_3@.take(PARK_3@.len() - "<samurai-handoff-written>"@.len()))) by {
        reveal_strlit(
            " — EXACTLY this repo-relative path inside this worktree, creating directories as \
             needed; NEVER invent another filename or location (never a HANDOFF-*.md at the \
             repo root) — following the PRD section 6 template EXACTLY, with these headings \
             in this order: Goal / Done / In progress / Decisions + why / Failed attempts / \
             Repo state / Verify / Next steps. It doubles as the park state your successor \
             resumes from, so keep every section to pointers (issue numbers, commit SHAs, \
             file paths), never content dumps. \"Repo state\" MUST record the current branch \
             and the HEAD SHA as they stand AFTER the WIP commit of step 4. (6) Only when \
             steps 2-5 are ALL done, reply with a message that contains exactly \
             <samurai-handoff-written>",
        );
        reveal_strlit("<samurai-handoff-written>");
        assert(PARK_3@.skip(PARK_3@.len() - "<samurai-handoff-written>"@.len()) =~= "<samurai-handoff-written>"@);
    }
    assert(single_line(PARK_4@) && starts_with(PARK_4@, "</samurai-handoff-written>"@)) by {
        reveal_strlit(
            "</samurai-handoff-written>. Never quote, restate, or echo these marker strings \
             anywhere else in any reply — emit each one exactly once, only as the actual \
             signal at its required moment; a quoted marker is read as the real signal.",
        );
        reveal_strlit("</samurai-handoff-written>");
        assert(PARK_4@.take("</samurai-handoff-written>"@.len() as int) =~= "</samurai-handoff-written>"@);
    }
    assert(single_line(PARK_FIX_1@) && no_bracket(PARK_FIX_1@)) by {
        reveal_strlit("[Maestro Samurai] Park INVALID: ");
    }
    assert(single_line(PARK_FIX_2@) && no_bracket(PARK_FIX_2@)) by {
        reveal_strlit(". The gen-");
    }
    assert(single_line(PARK_FIX_3@) && no_bracket(PARK_FIX_3@)) by {
        reveal_strlit(
            " park is only complete when BOTH checks pass: the handoff file exists at ",
        );
    }
    assert(single_line(PARK_FIX_4@) && ends_with(PARK_FIX_4@, "<samurai-ack>"@) && no_bracket(PARK_FIX_4@.take(PARK_FIX_4@.len() - "<samurai-ack>"@.len()))) by {
        reveal_strlit(
            " (PRD section 6 template), AND `git status --porcelain` reports no modified or \
             staged tracked files (untracked files are fine). (1) Acknowledge IMMEDIATELY by \
             replying with a message that contains exactly <samurai-ack>",
        );
        reveal_strlit("<samurai-ack>");
        assert(PARK_FIX_4@.skip(PARK_FIX_4@.len() - "<samurai-ack>"@.len()) =~= "<samurai-ack>"@);
    }
    assert(single_line(PARK_FIX_5@) && starts_with(PARK_FIX_5@, "</samurai-ack>"@) && no_bracket(PARK_FIX_5@.skip("</samurai-ack>"@.len() as int))) by {
        reveal_strlit(
            "</samurai-ack> — note the value differs from the first instruction's; use \
             exactly this one. (2) Fix the failure above: write/update the handoff file \
             and/or commit ALL WIP to this run's branch (stage named paths only, Conventional \
             Commit message). If you wrote the handoff under any other filename or directory \
             (e.g. a HANDOFF-*.md at the repo root), MOVE it to exactly ",
        );
        reveal_strlit("</samurai-ack>");
        assert(PARK_FIX_5@.take("</samurai-ack>"@.len() as int) =~= "</samurai-ack>"@);
    }
    assert(single_line(PARK_FIX_6@) && ends_with(PARK_FIX_6@, "<samurai-handoff-written>"@) && no_bracket(PARK_FIX_6@.take(PARK_FIX_6@.len() - "<samurai-handoff-written>"@.len()))) by {
        reveal_strlit(
            ". (3) Then reply with a message that contains exactly <samurai-handoff-written>",
        );
        reveal_strlit("<samurai-handoff-written>");
        assert(PARK_FIX_6@.skip(PARK_FIX_6@.len() - "<samurai-handoff-written>"@.len()) =~= "<samurai-handoff-written>"@);
    }
    assert(single_line(PARK_FIX_7@) && starts_with(PARK_FIX_7@, "</samurai-handoff-written>"@)) by {
        reveal_strlit(
            "</samurai-handoff-written>. Never quote, restate, or echo these marker strings \
             anywhere else in any reply — emit each one exactly once, only as the actual \
             signal at its required moment. This is the final attempt before a human is \
             alerted.",
        );
        reveal_strlit("</samurai-handoff-written>");
        assert(PARK_FIX_7@.take("</samurai-handoff-written>"@.len() as int) =~= "</samurai-handoff-written>"@);
    }
}

/// The successor's ritual.
pub(crate) proof fn lemma_successor_lines()
    ensures
        single_line(SUCCESSOR_1@),
        single_line(SUCCESSOR_2@),
        single_line(SUCCESSOR_3@),
        single_line(SUCCESSOR_4@),
        single_line(SUCCESSOR_5@),
        single_line(HEAD_VERIFIED@),
        single_line(HEAD_UNVERIFIED@),
{
    assert(single_line(SUCCESSOR_1@)) by {
        reveal_strlit("[Maestro Samurai] You are generation ");
    }
    assert(single_line(SUCCESSOR_2@)) by {
        reveal_strlit(" for ");
    }
    assert(single_line(SUCCESSOR_3@)) by {
        reveal_strlit(", successor to generation ");
    }
    assert(single_line(SUCCESSOR_4@)) by {
        reveal_strlit(". Read the handoff file at ");
    }
    assert(single_line(SUCCESSOR_5@)) by {
        reveal_strlit(
            " IN FULL before doing anything else — it and GitHub are your only sources of \
             truth.",
        );
    }
    assert(single_line(HEAD_VERIFIED@)) by {
        reveal_strlit(
            " Maestro verified that this repository's current HEAD equals the SHA recorded in \
             the handoff's \"Repo state\" section, so the verify step is already satisfied: \
             SKIP the commands in the handoff's Verify section and continue directly with its \
             Next steps.",
        );
    }
    assert(single_line(HEAD_UNVERIFIED@)) by {
        reveal_strlit(
            " Maestro could NOT confirm that this repository's current HEAD matches the SHA \
             recorded in the handoff's \"Repo state\" section. You MUST run every command in \
             the handoff's Verify section FIRST, and trust NOTHING the handoff claims that \
             those commands do not confirm — investigate and fix any failure before moving \
             on. Only then continue with the handoff's Next steps.",
        );
    }
}

/// The choices of the launch brief.
pub(crate) proof fn lemma_launch_choice_lines()
    ensures
        single_line(READ_EPICS@),
        single_line(READ_EPIC@),
        single_line(READ_ISSUES@),
        single_line(READ_ISSUE@),
        single_line(PROGRESS_ISSUES@),
        single_line(PROGRESS_ISSUE@),
        single_line(PROGRESS_EPICS@),
        single_line(PROGRESS_EPIC@),
        single_line(UNREADY_ISSUE@),
        single_line(UNREADY_EPICS@),
        single_line(UNREADY_EPIC@),
        single_line(WORKTREE_OF_EPIC@),
        single_line(WORKTREE_OF_RUN@),
        single_line(GH_UNPINNED@),
        single_line(CAUTION@),
        single_line(PLUS_ISSUES_1@),
        single_line(PLUS_ISSUES_2@),
        single_line(PLUS_ISSUE_1@),
        single_line(PLUS_ISSUE_2@),
        single_line(GH_PINNED_1@),
        single_line(GH_PINNED_2@),
        single_line(PROGRESS_PIN_1@),
        single_line(PROGRESS_PIN_2@),
        single_line(LAUNCH_PR_1@),
        single_line(LAUNCH_PR_2@),
{
    assert(single_line(READ_EPICS@)) by {
        reveal_strlit(
            "read the epics' GitHub issues, ALL of their comments, and EVERY child issue they \
             reference",
        );
    }
    assert(single_line(READ_EPIC@)) by {
        reveal_strlit(
            "read the epic's GitHub issue, ALL of its comments, and EVERY child issue it \
             references",
        );
    }
    assert(single_line(READ_ISSUES@)) by {
        reveal_strlit("read EACH of this run's GitHub issues and ALL of their comments");
    }
    assert(single_line(READ_ISSUE@)) by {
        reveal_strlit("read this run's GitHub issue and ALL of its comments");
    }
    assert(single_line(PROGRESS_ISSUES@)) by {
        reveal_strlit(
            "comment progress on EACH of those GitHub issues as they complete, and open the \
             run's pull request for finished work and keep it updated",
        );
    }
    assert(single_line(PROGRESS_ISSUE@)) by {
        reveal_strlit(
            "comment progress on that GitHub issue as work completes, and open the run's pull \
             request for finished work and keep it updated",
        );
    }
    assert(single_line(PROGRESS_EPICS@)) by {
        reveal_strlit(
            "comment progress on the epics' GitHub issues as issues complete, and open the \
             run's pull request for finished work and keep it updated",
        );
    }
    assert(single_line(PROGRESS_EPIC@)) by {
        reveal_strlit(
            "comment progress on the epic's GitHub issue as issues complete, and open the \
             run's pull request for finished work and keep it updated",
        );
    }
    assert(single_line(UNREADY_ISSUE@)) by {
        reveal_strlit("say so in that issue's progress comment");
    }
    assert(single_line(UNREADY_EPICS@)) by {
        reveal_strlit("say so in your progress comment on the epics");
    }
    assert(single_line(UNREADY_EPIC@)) by {
        reveal_strlit("say so in your progress comment on the epic");
    }
    assert(single_line(WORKTREE_OF_EPIC@)) by {
        reveal_strlit("This directory is the epic's dedicated worktree on its own branch.");
    }
    assert(single_line(WORKTREE_OF_RUN@)) by {
        reveal_strlit("This directory is this run's dedicated worktree on its own branch.");
    }
    assert(single_line(GH_UNPINNED@)) by {
        reveal_strlit(" with the `gh` CLI, run from this directory");
    }
    assert(single_line(CAUTION@)) by {
        reveal_strlit(
            " CAUTION: Maestro could not determine this repository's origin remote, so no \
             `--repo` pin is available — before running any `gh` command, double-check it \
             targets the correct repository.",
        );
    }
    assert(single_line(PLUS_ISSUES_1@)) by {
        reveal_strlit(", plus the standalone issues ");
    }
    assert(single_line(PLUS_ISSUES_2@)) by {
        reveal_strlit(" and ALL of their comments");
    }
    assert(single_line(PLUS_ISSUE_1@)) by {
        reveal_strlit(", plus the standalone issue ");
    }
    assert(single_line(PLUS_ISSUE_2@)) by {
        reveal_strlit(" and ALL of its comments");
    }
    assert(single_line(GH_PINNED_1@)) by {
        reveal_strlit(" with the `gh` CLI, passing `--repo ");
    }
    assert(single_line(GH_PINNED_2@)) by {
        reveal_strlit("` explicitly on every `gh` command");
    }
    assert(single_line(PROGRESS_PIN_1@)) by {
        reveal_strlit(" (again via `gh` with `--repo ");
    }
    assert(single_line(PROGRESS_PIN_2@)) by {
        reveal_strlit("` on every command)");
    }
    assert(single_line(LAUNCH_PR_1@)) by {
        reveal_strlit(
            "every PR body must contain `Closes #N` (or `Fixes #N`) for each issue it \
             resolves so GitHub auto-closes them on merge, and every PR title must list every ",
        );
    }
    assert(single_line(LAUNCH_PR_2@)) by {
        reveal_strlit(
            " number this run covers, from the moment it is created (e.g. `feat(samurai): #76 \
             #77 #78 — summary`)",
        );
    }
}

/// The launch brief.
pub(crate) proof fn lemma_launch_lines()
    ensures
        single_line(LAUNCH_1@),
        single_line(LAUNCH_2@),
        single_line(LAUNCH_3@),
        single_line(LAUNCH_4@),
        single_line(LAUNCH_5@),
        single_line(LAUNCH_6@),
{
    assert(single_line(LAUNCH_1@)) by {
        reveal_strlit("[Maestro Samurai] You are generation 1, the FIRST orchestrator, for ");
    }
    assert(single_line(LAUNCH_2@)) by {
        reveal_strlit(". ");
    }
    assert(single_line(LAUNCH_3@)) by {
        reveal_strlit(" Do the following: (1) ");
    }
    assert(single_line(LAUNCH_4@)) by {
        reveal_strlit(
            ". (2) Assess whether each issue is AGENT-READY — scope clear enough to \
             implement, acceptance criteria stated, no open product or design decision that \
             needs a human, and every command named in its acceptance criteria exists and is \
             RUNNABLE in this repo. VERIFY runnability before treating an issue as \
             agent-ready — check the repo instead of assuming (e.g. the script is listed in \
             package.json's scripts table, the tool answers a `--version`/`--help` probe, the \
             build target exists); an issue whose acceptance criteria name a command that is \
             missing is NOT agent-ready. Work only the ready ones. For each issue that is NOT \
             ready, comment on it saying exactly what is missing (for a missing command, name \
             exactly which command), exclude it from this run, and ",
        );
    }
    assert(single_line(LAUNCH_5@)) by {
        reveal_strlit(
            " instead of guessing at the intent. (3) Plan the work across the agent-ready \
             issues before touching code. (4) Work them via SMALL idempotent subagent tasks, \
             each committing its completed step to THIS branch (stage named paths only, never \
             `git add .` or `git add -A`; Conventional Commit messages `type(scope): \
             summary`). (5) ",
        );
    }
    assert(single_line(LAUNCH_6@)) by {
        reveal_strlit(
            ". (6) NEVER switch to, commit to, or push any other branch, and NEVER touch any \
             repository other than this one.",
        );
    }
}

/// The recovery ritual.
pub(crate) proof fn lemma_recovery_lines()
    ensures
        single_line(RECOVERY_READ@),
        single_line(RECOVERY_COMMENT@),
        single_line(RECOVERY_READ_PINNED_1@),
        single_line(RECOVERY_READ_PINNED_2@),
        single_line(RECOVERY_COMMENT_PINNED_1@),
        single_line(RECOVERY_COMMENT_PINNED_2@),
        single_line(RECOVERY_1@),
        single_line(RECOVERY_2@),
        single_line(RECOVERY_3@),
        single_line(RECOVERY_4@),
        single_line(RECOVERY_5@),
        single_line(RECOVERY_6@),
        single_line(RECOVERY_7@),
        single_line(RECOVERY_8@),
{
    assert(single_line(RECOVERY_READ@)) by {
        reveal_strlit(
            "read this run's GitHub issue(s) and ALL of their comments with the `gh` CLI, run \
             from this directory",
        );
    }
    assert(single_line(RECOVERY_COMMENT@)) by {
        reveal_strlit("comment on this run's GitHub issue(s)");
    }
    assert(single_line(RECOVERY_READ_PINNED_1@)) by {
        reveal_strlit(
            "read this run's GitHub issue(s) and ALL of their comments with the `gh` CLI, \
             passing `--repo ",
        );
    }
    assert(single_line(RECOVERY_READ_PINNED_2@)) by {
        reveal_strlit("` explicitly on every `gh` command");
    }
    assert(single_line(RECOVERY_COMMENT_PINNED_1@)) by {
        reveal_strlit("comment on this run's GitHub issue(s) (again via `gh` with `--repo ");
    }
    assert(single_line(RECOVERY_COMMENT_PINNED_2@)) by {
        reveal_strlit("`)");
    }
    assert(single_line(RECOVERY_1@)) by {
        reveal_strlit("[Maestro Samurai] RECOVERY MODE: you are generation ");
    }
    assert(single_line(RECOVERY_2@)) by {
        reveal_strlit(" for ");
    }
    assert(single_line(RECOVERY_3@)) by {
        reveal_strlit(". Generation ");
    }
    assert(single_line(RECOVERY_4@)) by {
        reveal_strlit(
            " died without a valid handoff file, so there is nothing to hand off to you. \
             Reconstruct the state of the work from three sources: (1) run `git log --oneline \
             -20` in this repository; (2) ",
        );
    }
    assert(single_line(RECOVERY_5@)) by {
        reveal_strlit("; (3) read the pre-digested transcript summary Maestro extracted to ");
    }
    assert(single_line(RECOVERY_6@)) by {
        reveal_strlit(
            " — treat it as hints, NOT as truth. Then run the project's standard verification \
             (build + tests) BEFORE trusting or continuing anything — investigate and fix any \
             failure first. Once verification passes, ",
        );
    }
    assert(single_line(RECOVERY_7@)) by {
        reveal_strlit(" that generation ");
    }
    assert(single_line(RECOVERY_8@)) by {
        reveal_strlit(
            " has taken over in recovery mode, then continue this run's remaining work.",
        );
    }
}

/// The journaling rider.
pub(crate) proof fn lemma_journal_lines()
    ensures
        single_line(JOURNAL_1@),
        single_line(JOURNAL_2@),
        single_line(JOURNAL_3@),
{
    assert(single_line(JOURNAL_1@)) by {
        reveal_strlit(
            "[Maestro Samurai] Journaling: when you hit friction — a bottleneck, an error, a \
             tooling gap, a process improvement idea, or a concern — append ONE line to ",
        );
    }
    assert(single_line(JOURNAL_2@)) by {
        reveal_strlit(
            " in the form {\"ts\":\"<ISO \
             8601>\",\"category\":\"BOTTLENECK\"|\"ERROR\"|\"IMPROVEMENT\"|\"SKILL\"|\"CONCERN\",\"text\":\"<short \
             description>\",\"project\":\"<repo path>\",\"agent\":\"<your epic/generation \
             id>\"}, e.g. via `echo '<json>' >> \"",
        );
    }
    assert(single_line(JOURNAL_3@)) by {
        reveal_strlit(
            "\"`. Malformed lines are skipped by the reader, so a bad line cannot break the \
             journal — but NEVER rewrite or delete existing lines: the journal is append-only.",
        );
    }
}

} // verus!
