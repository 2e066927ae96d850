//! The one-line instructions that are typed into supervised sessions.
//!
//! Instructions go straight into a live terminal, so every builder returns a text
//! without line ends. Arguments that a person or a model may have written are
//! collapsed to single spaces first; the repository pin is taken as it is.

use vstd::prelude::*;
use crate::decimal::{decimal, push_decimal};
use crate::handoff_file::{
    epic_slug, epic_slug_text, handoff_file_relpath, handoff_file_relpath_text, is_slug_char,
    lemma_epic_slug_is_slug, recovery_digest_relpath, recovery_digest_relpath_text,
};
use crate::marker_values::{
    handoff_ack_retry_value, handoff_ack_retry_value_text, handoff_ack_value,
    handoff_ack_value_text, handoff_written_retry_value, handoff_written_retry_value_text,
    handoff_written_value, handoff_written_value_text, lemma_decimal_single_line,
    lemma_values_single_line, park_ack_retry_value, park_ack_retry_value_text, park_ack_value,
    park_ack_value_text, park_written_retry_value, park_written_retry_value_text,
    park_written_value, park_written_value_text, soft_winddown_ack_value,
    soft_winddown_ack_value_text, soft_winddown_episode_ack_value,
    soft_winddown_episode_ack_value_text, winddown_allclear_ack_value,
    winddown_allclear_ack_value_text, winddown_allclear_episode_ack_value,
    winddown_allclear_episode_ack_value_text,
};
use crate::prompt_text::{
    ALLCLEAR_1, ALLCLEAR_2, CAUTION, COMPLETION_1, COMPLETION_2, COMPLETION_3, GH_PINNED_1,
    GH_PINNED_2, GH_UNPINNED, HANDOFF_1, HANDOFF_2, HANDOFF_3, HANDOFF_4, HANDOFF_FIX_1,
    HANDOFF_FIX_2, HANDOFF_FIX_3, HANDOFF_FIX_4, HANDOFF_FIX_5, HANDOFF_FIX_6, HANDOFF_FIX_7,
    HEAD_UNVERIFIED, HEAD_VERIFIED, ISSUE_AND_EPIC_NUMBERS, ISSUE_NUMBERS, JOURNAL_1, JOURNAL_2,
    JOURNAL_3, LAUNCH_1, LAUNCH_2, LAUNCH_3, LAUNCH_4, LAUNCH_5, LAUNCH_6, LAUNCH_PR_1, LAUNCH_PR_2,
    ORDER_1, ORDER_2, ORDER_3, ORDER_4, ORDER_ALERT_TAG, ORDER_OF_EPIC, ORDER_OF_LIST,
    ORDER_REMINDER_1, ORDER_REMINDER_2, ORDER_REMINDER_3, PARK_1, PARK_2, PARK_3, PARK_4,
    PARK_FIX_1, PARK_FIX_2, PARK_FIX_3, PARK_FIX_4, PARK_FIX_5, PARK_FIX_6, PARK_FIX_7,
    PLUS_ISSUES_1, PLUS_ISSUES_2, PLUS_ISSUE_1, PLUS_ISSUE_2, PROGRESS_EPIC, PROGRESS_EPICS,
    PROGRESS_ISSUE, PROGRESS_ISSUES, PROGRESS_PIN_1, PROGRESS_PIN_2, PR_REMINDER_1, PR_REMINDER_2,
    READ_EPIC, READ_EPICS, READ_ISSUE, READ_ISSUES, RECOVERY_1, RECOVERY_2, RECOVERY_3, RECOVERY_4,
    RECOVERY_5, RECOVERY_6, RECOVERY_7, RECOVERY_8, RECOVERY_COMMENT, RECOVERY_COMMENT_PINNED_1,
    RECOVERY_COMMENT_PINNED_2, RECOVERY_READ, RECOVERY_READ_PINNED_1, RECOVERY_READ_PINNED_2,
    RUN_COMPLETE_TAG, SCHEDULING_1, SCHEDULING_2, SUCCESSOR_1, SUCCESSOR_2, SUCCESSOR_3,
    SUCCESSOR_4, SUCCESSOR_5, UNREADY_EPIC, UNREADY_EPICS, UNREADY_ISSUE, WINDDOWN_1, WINDDOWN_2,
    WORKFLOW_1, WORKFLOW_2, WORKTREE_OF_EPIC, WORKTREE_OF_RUN,
};
use crate::run_refs::{
    join_refs_text, lemma_join_refs_single_line, lemma_prose_single_line, proper_refs, prose_text,
    RunRefs,
};
use crate::text::{lemma_single_line_concat, owned, single_line, to_chars};
use crate::words::{collapse, collapse_whitespace, ends_with, lemma_collapse_single_line};

verus! {

// ---------------------------------------------------------------------------
// Clauses that several briefs share
// ---------------------------------------------------------------------------

/// The clause that tells an orchestrator to declare completion.
pub open spec fn completion_clause_text() -> Seq<char> {
    COMPLETION_1@ + RUN_COMPLETE_TAG@ + COMPLETION_2@ + RUN_COMPLETE_TAG@ + COMPLETION_3@
}

/// The clause that keeps waiting and rescheduling with the supervisor.
pub open spec fn scheduling_clause_text() -> Seq<char> {
    SCHEDULING_1@ + SCHEDULING_2@
}

/// The workflow between its markers; nothing where it is empty.
pub open spec fn workflow_section_text(compiled_workflow: Seq<char>) -> Seq<char> {
    if collapse(compiled_workflow).len() == 0 {
        Seq::empty()
    } else {
        WORKFLOW_1@ + collapse(compiled_workflow) + WORKFLOW_2@
    }
}

/// The execution-order contract of a first generation.
pub open spec fn order_clause_text(is_list: bool) -> Seq<char> {
    let listed = if is_list {
        ORDER_OF_LIST@
    } else {
        ORDER_OF_EPIC@
    };
    ORDER_1@ + listed + ORDER_2@ + ORDER_ALERT_TAG@ + ORDER_3@ + ORDER_ALERT_TAG@ + ORDER_4@
}

/// The execution-order reminder of every later generation.
pub open spec fn order_reminder_text() -> Seq<char> {
    ORDER_REMINDER_1@ + ORDER_ALERT_TAG@ + ORDER_REMINDER_2@ + ORDER_ALERT_TAG@
        + ORDER_REMINDER_3@
}

/// The numbers that a pull request's title lists: a plain list of issues has no
/// epic.
pub open spec fn refs_word_text(is_list: bool) -> Seq<char> {
    if is_list {
        ISSUE_NUMBERS@
    } else {
        ISSUE_AND_EPIC_NUMBERS@
    }
}

/// What a pull request has to carry.
pub open spec fn pr_reminder_text(is_list: bool) -> Seq<char> {
    PR_REMINDER_1@ + refs_word_text(is_list) + PR_REMINDER_2@
}

/// The completion clause.
fn completion_declaration_clause() -> (text: String)
    ensures
        text@ == completion_clause_text(),
{
    let mut text = owned(COMPLETION_1);
    text.append(RUN_COMPLETE_TAG);
    text.append(COMPLETION_2);
    text.append(RUN_COMPLETE_TAG);
    text.append(COMPLETION_3);
    text
}

/// The scheduling clause.
fn local_scheduling_clause() -> (text: String)
    ensures
        text@ == scheduling_clause_text(),
{
    let mut text = owned(SCHEDULING_1);
    text.append(SCHEDULING_2);
    text
}

/// The workflow section; an empty workflow gives no section.
fn workflow_section(compiled_workflow: &str) -> (text: String)
    ensures
        text@ == workflow_section_text(compiled_workflow@),
{
    let compiled = collapse_whitespace(compiled_workflow);
    if compiled.as_str().is_empty() {
        return String::new();
    }
    let mut text = owned(WORKFLOW_1);
    text.append(compiled.as_str());
    text.append(WORKFLOW_2);
    text
}

/// The execution-order contract of a first generation.
fn order_contract_clause(is_list: bool) -> (text: String)
    ensures
        text@ == order_clause_text(is_list),
{
    let listed = if is_list {
        ORDER_OF_LIST
    } else {
        ORDER_OF_EPIC
    };
    let mut text = owned(ORDER_1);
    text.append(listed);
    text.append(ORDER_2);
    text.append(ORDER_ALERT_TAG);
    text.append(ORDER_3);
    text.append(ORDER_ALERT_TAG);
    text.append(ORDER_4);
    text
}

/// The execution-order reminder of every later generation.
fn order_contract_reminder() -> (text: String)
    ensures
        text@ == order_reminder_text(),
{
    let mut text = owned(ORDER_REMINDER_1);
    text.append(ORDER_ALERT_TAG);
    text.append(ORDER_REMINDER_2);
    text.append(ORDER_ALERT_TAG);
    text.append(ORDER_REMINDER_3);
    text
}

/// The numbers that a pull request's title lists.
fn refs_word(is_list: bool) -> (text: &'static str)
    ensures
        text@ == refs_word_text(is_list),
{
    if is_list {
        ISSUE_NUMBERS
    } else {
        ISSUE_AND_EPIC_NUMBERS
    }
}

/// What a pull request has to carry.
fn pr_discipline_reminder(is_list: bool) -> (text: String)
    ensures
        text@ == pr_reminder_text(is_list),
{
    let mut text = owned(PR_REMINDER_1);
    text.append(refs_word(is_list));
    text.append(PR_REMINDER_2);
    text
}

/// The shared clauses are single lines.
pub proof fn lemma_clauses_single_line(compiled_workflow: Seq<char>, is_list: bool)
    ensures
        single_line(completion_clause_text()),
        single_line(scheduling_clause_text()),
        single_line(workflow_section_text(compiled_workflow)),
        single_line(order_clause_text(is_list)),
        single_line(order_reminder_text()),
        single_line(pr_reminder_text(is_list)),
        single_line(refs_word_text(is_list)),
        single_line(" "@),
{
    broadcast use lemma_single_line_concat;

    crate::prompt_text::lemma_clause_lines();
    crate::prompt_text::lemma_order_lines();
    lemma_collapse_single_line(compiled_workflow);
    reveal_strlit(" ");
}

/// The paths of handoff files and digests are single lines.
pub proof fn lemma_paths_single_line(epic: Seq<char>, generation: u32)
    ensures
        single_line(epic_slug_text(epic)),
        single_line(handoff_file_relpath_text(epic, generation)),
        single_line(recovery_digest_relpath_text(epic, generation)),
{
    broadcast use lemma_single_line_concat;

    lemma_epic_slug_is_slug(epic);
    let slug = epic_slug_text(epic);
    assert forall|i: int| 0 <= i < slug.len() implies #[trigger] slug[i] != '\n' && slug[i]
        != '\r' by {
        assert(is_slug_char(slug[i]));
    }
    lemma_decimal_single_line(generation as nat);
    reveal_strlit(".maestro/handoffs/");
    reveal_strlit("-gen");
    reveal_strlit(".md");
    reveal_strlit("-recovery.md");
}

/// Whether the run's name is a comma-separated list of issues: a single
/// reference never holds a comma.
pub fn is_issue_list(epic_text: &str) -> (r: bool)
    ensures
        r == epic_text@.contains(','),
{
    let chars = to_chars(epic_text);
    let mut i: usize = 0;
    while i < chars.len()
        invariant
            i <= chars.len(),
            chars@ == epic_text@,
            forall|j: int| 0 <= j < i ==> chars@[j] != ',',
        decreases chars.len() - i,
    {
        if chars[i] == ',' {
            return true;
        }
        i = i + 1;
    }
    false
}

// ---------------------------------------------------------------------------
// Handoffs and parks
// ---------------------------------------------------------------------------

/// What [`handoff_instruction`] gives.
pub open spec fn handoff_instruction_text(epic: Seq<char>, generation: u32) -> Seq<char> {
    HANDOFF_1@ + handoff_ack_value_text(generation) + HANDOFF_2@
        + handoff_file_relpath_text(epic, generation) + HANDOFF_3@
        + handoff_written_value_text(generation) + HANDOFF_4@
}

/// What [`handoff_instruction`] gives is a single line.
pub proof fn lemma_handoff_instruction_single_line(epic: Seq<char>, generation: u32)
    ensures
        single_line(handoff_instruction_text(epic, generation)),
{
    broadcast use lemma_single_line_concat;

    lemma_values_single_line(generation, 0);
    lemma_paths_single_line(epic, generation);
    crate::prompt_text::lemma_handoff_lines();
}

/// The handoff brief: acknowledge, wind down, commit, write the handoff file, then
/// reply with the written marker. The commit comes before the file, whose "Repo
/// state" records the HEAD after it.
pub fn handoff_instruction(epic: &str, generation: u32) -> (text: String)
    ensures
        text@ == handoff_instruction_text(epic@, generation),
        single_line(text@),
{
    proof {
        lemma_handoff_instruction_single_line(epic@, generation);
    }
    let mut text = owned(HANDOFF_1);
    text.append(handoff_ack_value(generation).as_str());
    text.append(HANDOFF_2);
    text.append(handoff_file_relpath(epic, generation).as_str());
    text.append(HANDOFF_3);
    text.append(handoff_written_value(generation).as_str());
    text.append(HANDOFF_4);
    text
}

/// What [`handoff_corrective_instruction`] gives.
pub open spec fn handoff_corrective_instruction_text(
    epic: Seq<char>,
    generation: u32,
    failure: Seq<char>,
) -> Seq<char> {
    HANDOFF_FIX_1@ + collapse(failure) + HANDOFF_FIX_2@ + decimal(generation as nat)
        + HANDOFF_FIX_3@ + handoff_file_relpath_text(epic, generation) + HANDOFF_FIX_4@
        + handoff_ack_retry_value_text(generation) + HANDOFF_FIX_5@
        + handoff_file_relpath_text(epic, generation) + HANDOFF_FIX_6@
        + handoff_written_retry_value_text(generation) + HANDOFF_FIX_7@
}

/// What [`handoff_corrective_instruction`] gives is a single line.
pub proof fn lemma_handoff_corrective_instruction_single_line(
    epic: Seq<char>,
    generation: u32,
    failure: Seq<char>,
)
    ensures
        single_line(handoff_corrective_instruction_text(epic, generation, failure)),
{
    broadcast use lemma_single_line_concat;

    lemma_values_single_line(generation, 0);
    lemma_paths_single_line(epic, generation);
    lemma_decimal_single_line(generation as nat);
    lemma_collapse_single_line(failure);
    crate::prompt_text::lemma_handoff_lines();
}

/// The one corrective brief after a handoff that did not validate. It asks for the
/// same cycle under the marker values of the second round.
pub fn handoff_corrective_instruction(epic: &str, generation: u32, failure: &str) -> (text: String)
    ensures
        text@ == handoff_corrective_instruction_text(epic@, generation, failure@),
        single_line(text@),
{
    proof {
        lemma_handoff_corrective_instruction_single_line(epic@, generation, failure@);
    }
    let mut text = owned(HANDOFF_FIX_1);
    text.append(collapse_whitespace(failure).as_str());
    text.append(HANDOFF_FIX_2);
    push_decimal(&mut text, generation as u64);
    text.append(HANDOFF_FIX_3);
    text.append(handoff_file_relpath(epic, generation).as_str());
    text.append(HANDOFF_FIX_4);
    text.append(handoff_ack_retry_value(generation).as_str());
    text.append(HANDOFF_FIX_5);
    text.append(handoff_file_relpath(epic, generation).as_str());
    text.append(HANDOFF_FIX_6);
    text.append(handoff_written_retry_value(generation).as_str());
    text.append(HANDOFF_FIX_7);
    text
}

/// What [`park_instruction`] gives.
pub open spec fn park_instruction_text(epic: Seq<char>, generation: u32) -> Seq<char> {
    PARK_1@ + park_ack_value_text(generation) + PARK_2@
        + handoff_file_relpath_text(epic, generation) + PARK_3@
        + park_written_value_text(generation) + PARK_4@ + scheduling_clause_text()
}

/// What [`park_instruction`] gives is a single line.
pub proof fn lemma_park_instruction_single_line(epic: Seq<char>, generation: u32)
    ensures
        single_line(park_instruction_text(epic, generation)),
{
    broadcast use lemma_single_line_concat;

    lemma_values_single_line(generation, 0);
    lemma_paths_single_line(epic, generation);
    crate::prompt_text::lemma_park_lines();
    crate::prompt_text::lemma_clause_lines();
}

/// The park brief: finish the current step, commit, write the handoff file, which is
/// the park state too, then reply with the written marker.
pub fn park_instruction(epic: &str, generation: u32) -> (text: String)
    ensures
        text@ == park_instruction_text(epic@, generation),
        single_line(text@),
{
    proof {
        lemma_park_instruction_single_line(epic@, generation);
    }
    let mut text = owned(PARK_1);
    text.append(park_ack_value(generation).as_str());
    text.append(PARK_2);
    text.append(handoff_file_relpath(epic, generation).as_str());
    text.append(PARK_3);
    text.append(park_written_value(generation).as_str());
    text.append(PARK_4);
    text.append(local_scheduling_clause().as_str());
    text
}

/// What [`park_corrective_instruction`] gives.
pub open spec fn park_corrective_instruction_text(
    epic: Seq<char>,
    generation: u32,
    failure: Seq<char>,
) -> Seq<char> {
    PARK_FIX_1@ + collapse(failure) + PARK_FIX_2@ + decimal(generation as nat) + PARK_FIX_3@
        + handoff_file_relpath_text(epic, generation) + PARK_FIX_4@
        + park_ack_retry_value_text(generation) + PARK_FIX_5@
        + handoff_file_relpath_text(epic, generation) + PARK_FIX_6@
        + park_written_retry_value_text(generation) + PARK_FIX_7@
}

/// What [`park_corrective_instruction`] gives is a single line.
pub proof fn lemma_park_corrective_instruction_single_line(
    epic: Seq<char>,
    generation: u32,
    failure: Seq<char>,
)
    ensures
        single_line(park_corrective_instruction_text(epic, generation, failure)),
{
    broadcast use lemma_single_line_concat;

    lemma_values_single_line(generation, 0);
    lemma_paths_single_line(epic, generation);
    lemma_decimal_single_line(generation as nat);
    lemma_collapse_single_line(failure);
    crate::prompt_text::lemma_park_lines();
}

/// The one corrective brief after a park that did not validate.
pub fn park_corrective_instruction(epic: &str, generation: u32, failure: &str) -> (text: String)
    ensures
        text@ == park_corrective_instruction_text(epic@, generation, failure@),
        single_line(text@),
{
    proof {
        lemma_park_corrective_instruction_single_line(epic@, generation, failure@);
    }
    let mut text = owned(PARK_FIX_1);
    text.append(collapse_whitespace(failure).as_str());
    text.append(PARK_FIX_2);
    push_decimal(&mut text, generation as u64);
    text.append(PARK_FIX_3);
    text.append(handoff_file_relpath(epic, generation).as_str());
    text.append(PARK_FIX_4);
    text.append(park_ack_retry_value(generation).as_str());
    text.append(PARK_FIX_5);
    text.append(handoff_file_relpath(epic, generation).as_str());
    text.append(PARK_FIX_6);
    text.append(park_written_retry_value(generation).as_str());
    text.append(PARK_FIX_7);
    text
}

// ---------------------------------------------------------------------------
// Wind-downs
// ---------------------------------------------------------------------------

/// The wind-down brief that asks for the acknowledgement `ack`.
pub open spec fn winddown_brief_text(ack: Seq<char>) -> Seq<char> {
    WINDDOWN_1@ + ack + WINDDOWN_2@ + scheduling_clause_text()
}

/// The all-clear brief that asks for the acknowledgement `ack`.
pub open spec fn allclear_brief_text(ack: Seq<char>) -> Seq<char> {
    ALLCLEAR_1@ + ack + ALLCLEAR_2@
}

/// The wind-down and all-clear briefs are single lines around a single-line value.
pub proof fn lemma_winddown_briefs_single_line(ack: Seq<char>)
    requires
        single_line(ack),
    ensures
        single_line(winddown_brief_text(ack)),
        single_line(allclear_brief_text(ack)),
{
    broadcast use lemma_single_line_concat;

    crate::prompt_text::lemma_winddown_lines();
    crate::prompt_text::lemma_clause_lines();
}

fn winddown_brief(ack: &str) -> (text: String)
    ensures
        text@ == winddown_brief_text(ack@),
{
    let mut text = owned(WINDDOWN_1);
    text.append(ack);
    text.append(WINDDOWN_2);
    text.append(local_scheduling_clause().as_str());
    text
}

fn allclear_brief(ack: &str) -> (text: String)
    ensures
        text@ == allclear_brief_text(ack@),
{
    let mut text = owned(ALLCLEAR_1);
    text.append(ack);
    text.append(ALLCLEAR_2);
    text
}

/// The soft wind-down: spawn nothing new, wrap up, a park may follow. The
/// acknowledgement alone completes it.
pub fn soft_winddown_instruction(generation: u32) -> (text: String)
    ensures
        text@ == winddown_brief_text(soft_winddown_ack_value_text(generation)),
        single_line(text@),
{
    proof {
        lemma_values_single_line(generation, 0);
        lemma_winddown_briefs_single_line(soft_winddown_ack_value_text(generation));
    }
    winddown_brief(soft_winddown_ack_value(generation).as_str())
}

/// The soft wind-down of one episode.
pub fn soft_winddown_episode_instruction(generation: u32, episode: u32) -> (text: String)
    ensures
        text@ == winddown_brief_text(soft_winddown_episode_ack_value_text(generation, episode)),
        single_line(text@),
{
    proof {
        lemma_values_single_line(generation, episode);
        lemma_winddown_briefs_single_line(
            soft_winddown_episode_ack_value_text(generation, episode),
        );
    }
    winddown_brief(soft_winddown_episode_ack_value(generation, episode).as_str())
}

/// The end of a wind-down: work at full throughput again. The acknowledgement
/// alone completes it.
pub fn winddown_allclear_instruction(generation: u32) -> (text: String)
    ensures
        text@ == allclear_brief_text(winddown_allclear_ack_value_text(generation)),
        single_line(text@),
{
    proof {
        lemma_values_single_line(generation, 0);
        lemma_winddown_briefs_single_line(winddown_allclear_ack_value_text(generation));
    }
    allclear_brief(winddown_allclear_ack_value(generation).as_str())
}

/// The end of one episode of wind-down.
pub fn winddown_allclear_episode_instruction(generation: u32, episode: u32) -> (text: String)
    ensures
        text@ == allclear_brief_text(
            winddown_allclear_episode_ack_value_text(generation, episode),
        ),
        single_line(text@),
{
    proof {
        lemma_values_single_line(generation, episode);
        lemma_winddown_briefs_single_line(
            winddown_allclear_episode_ack_value_text(generation, episode),
        );
    }
    allclear_brief(winddown_allclear_episode_ack_value(generation, episode).as_str())
}

// ---------------------------------------------------------------------------
// Successors
// ---------------------------------------------------------------------------

/// The display name of a successor's session.
pub open spec fn successor_session_name_text(epic: Seq<char>, generation: u32) -> Seq<char> {
    "samurai gen-"@ + decimal(generation as nat) + " "@ + epic_slug_text(epic)
}

/// The display name of a successor's session, such as `samurai gen-3 37`.
pub fn successor_session_name(epic: &str, generation: u32) -> (name: String)
    ensures
        name@ == successor_session_name_text(epic@, generation),
{
    let mut name = owned("samurai gen-");
    push_decimal(&mut name, generation as u64);
    name.append(" ");
    name.append(epic_slug(epic).as_str());
    name
}

/// The opening of a successor's ritual.
pub open spec fn successor_opening_text(epic: Seq<char>, predecessor: u32) -> Seq<char> {
    SUCCESSOR_1@ + decimal((predecessor + 1) as nat) + SUCCESSOR_2@ + collapse(epic) + SUCCESSOR_3@
        + decimal(predecessor as nat) + SUCCESSOR_4@ + handoff_file_relpath_text(epic, predecessor)
        + SUCCESSOR_5@
}

/// What [`successor_ritual_instruction`] gives.
pub open spec fn successor_ritual_instruction_text(
    epic: Seq<char>,
    predecessor_generation: u32,
    head_matched: bool,
    compiled_workflow: Seq<char>,
) -> Seq<char> {
    let verdict = if head_matched {
        HEAD_VERIFIED@
    } else {
        HEAD_UNVERIFIED@
    };
    successor_opening_text(epic, predecessor_generation) + verdict + order_reminder_text()
        + workflow_section_text(compiled_workflow) + completion_clause_text()
        + scheduling_clause_text() + " "@ + pr_reminder_text(collapse(epic).contains(','))
}

/// What [`successor_ritual_instruction`] gives is a single line.
pub proof fn lemma_successor_ritual_single_line(
    epic: Seq<char>,
    predecessor_generation: u32,
    head_matched: bool,
    compiled_workflow: Seq<char>,
)
    ensures
        single_line(
            successor_ritual_instruction_text(
                epic,
                predecessor_generation,
                head_matched,
                compiled_workflow,
            ),
        ),
{
    broadcast use lemma_single_line_concat;

    lemma_clauses_single_line(compiled_workflow, collapse(epic).contains(','));
    lemma_paths_single_line(epic, predecessor_generation);
    lemma_decimal_single_line(predecessor_generation as nat);
    lemma_decimal_single_line((predecessor_generation + 1) as nat);
    lemma_collapse_single_line(epic);
    crate::prompt_text::lemma_successor_lines();
    assert(single_line(successor_opening_text(epic, predecessor_generation)));
}

/// A successor's first instruction: read the predecessor's handoff in full, then
/// skip or run its Verify commands, as the HEAD gate decided.
pub fn successor_ritual_instruction(
    epic: &str,
    predecessor_generation: u32,
    head_matched: bool,
    compiled_workflow: &str,
) -> (text: String)
    requires
        predecessor_generation < u32::MAX,
    ensures
        text@ == successor_ritual_instruction_text(
            epic@,
            predecessor_generation,
            head_matched,
            compiled_workflow@,
        ),
        single_line(text@),
{
    proof {
        lemma_successor_ritual_single_line(
            epic@,
            predecessor_generation,
            head_matched,
            compiled_workflow@,
        );
    }
    let epic_text = collapse_whitespace(epic);
    let is_list: bool = is_issue_list(epic_text.as_str());
    let mut text = owned(SUCCESSOR_1);
    push_decimal(&mut text, (predecessor_generation + 1) as u64);
    text.append(SUCCESSOR_2);
    text.append(epic_text.as_str());
    text.append(SUCCESSOR_3);
    push_decimal(&mut text, predecessor_generation as u64);
    text.append(SUCCESSOR_4);
    text.append(handoff_file_relpath(epic, predecessor_generation).as_str());
    text.append(SUCCESSOR_5);
    if head_matched {
        text.append(HEAD_VERIFIED);
    } else {
        text.append(HEAD_UNVERIFIED);
    }
    text.append(order_contract_reminder().as_str());
    text.append(workflow_section(compiled_workflow).as_str());
    text.append(completion_declaration_clause().as_str());
    text.append(local_scheduling_clause().as_str());
    text.append(" ");
    text.append(pr_discipline_reminder(is_list).as_str());
    text
}

// ---------------------------------------------------------------------------
// Recovery
// ---------------------------------------------------------------------------

/// What a recovering generation reads.
pub open spec fn recovery_read_text(repo_pin: Option<Seq<char>>) -> Seq<char> {
    match repo_pin {
        Some(pin) => RECOVERY_READ_PINNED_1@ + pin + RECOVERY_READ_PINNED_2@,
        None => RECOVERY_READ@,
    }
}

/// Where a recovering generation comments.
pub open spec fn recovery_comment_text(repo_pin: Option<Seq<char>>) -> Seq<char> {
    match repo_pin {
        Some(pin) => RECOVERY_COMMENT_PINNED_1@ + pin + RECOVERY_COMMENT_PINNED_2@,
        None => RECOVERY_COMMENT@,
    }
}

/// The caution that a missing pin asks for.
pub open spec fn caution_text(repo_pin: Option<Seq<char>>) -> Seq<char> {
    match repo_pin {
        Some(_) => Seq::empty(),
        None => CAUTION@,
    }
}

/// The pin is a single line, where there is one.
pub open spec fn single_line_pin(repo_pin: Option<Seq<char>>) -> bool {
    repo_pin matches Some(pin) ==> single_line(pin)
}

/// The view of an optional string slice.
pub open spec fn pin_view(pin: Option<&str>) -> Option<Seq<char>> {
    match pin {
        Some(s) => Some(s@),
        None => None,
    }
}

/// What [`recovery_ritual_instruction`] gives.
pub open spec fn recovery_ritual_instruction_text(
    epic: Seq<char>,
    predecessor_generation: u32,
    repo_pin: Option<Seq<char>>,
    compiled_workflow: Seq<char>,
) -> Seq<char> {
    let generation = (predecessor_generation + 1) as u32;
    RECOVERY_1@ + decimal(generation as nat) + RECOVERY_2@ + collapse(epic) + RECOVERY_3@ + decimal(
        predecessor_generation as nat,
    ) + RECOVERY_4@ + recovery_read_text(repo_pin) + RECOVERY_5@ + recovery_digest_relpath_text(
        epic,
        generation,
    ) + RECOVERY_6@ + recovery_comment_text(repo_pin) + RECOVERY_7@ + decimal(generation as nat)
        + RECOVERY_8@ + caution_text(repo_pin) + order_reminder_text() + workflow_section_text(
        compiled_workflow,
    ) + completion_clause_text() + scheduling_clause_text() + " "@ + pr_reminder_text(
        collapse(epic).contains(','),
    )
}

/// What [`recovery_ritual_instruction`] gives is a single line around a
/// single-line pin.
pub proof fn lemma_recovery_ritual_single_line(
    epic: Seq<char>,
    predecessor_generation: u32,
    repo_pin: Option<Seq<char>>,
    compiled_workflow: Seq<char>,
)
    requires
        single_line_pin(repo_pin),
    ensures
        single_line(
            recovery_ritual_instruction_text(
                epic,
                predecessor_generation,
                repo_pin,
                compiled_workflow,
            ),
        ),
{
    broadcast use lemma_single_line_concat;

    let generation = (predecessor_generation + 1) as u32;
    lemma_clauses_single_line(compiled_workflow, collapse(epic).contains(','));
    lemma_paths_single_line(epic, generation);
    lemma_decimal_single_line(predecessor_generation as nat);
    lemma_decimal_single_line(generation as nat);
    lemma_collapse_single_line(epic);
    crate::prompt_text::lemma_recovery_lines();
    crate::prompt_text::lemma_launch_choice_lines();
    assert(single_line(recovery_read_text(repo_pin)));
    assert(single_line(recovery_comment_text(repo_pin)));
    assert(single_line(caution_text(repo_pin)));
}

/// What a recovering generation reads.
fn recovery_read(repo_pin: Option<&str>) -> (text: String)
    ensures
        text@ == recovery_read_text(pin_view(repo_pin)),
{
    match repo_pin {
        Some(pin) => {
            let mut text = owned(RECOVERY_READ_PINNED_1);
            text.append(pin);
            text.append(RECOVERY_READ_PINNED_2);
            text
        },
        None => owned(RECOVERY_READ),
    }
}

/// Where a recovering generation comments.
fn recovery_comment(repo_pin: Option<&str>) -> (text: String)
    ensures
        text@ == recovery_comment_text(pin_view(repo_pin)),
{
    match repo_pin {
        Some(pin) => {
            let mut text = owned(RECOVERY_COMMENT_PINNED_1);
            text.append(pin);
            text.append(RECOVERY_COMMENT_PINNED_2);
            text
        },
        None => owned(RECOVERY_COMMENT),
    }
}

/// The caution that a missing pin asks for.
fn caution(repo_pin: Option<&str>) -> (text: &'static str)
    ensures
        text@ == caution_text(pin_view(repo_pin)),
{
    proof {
        reveal_strlit("");
        assert(""@ =~= Seq::empty());
    }
    match repo_pin {
        Some(_) => "",
        None => CAUTION,
    }
}

/// The first instruction of a generation whose predecessor left no handoff: take
/// the state of the work from the history, from GitHub and from the transcript
/// digest, and verify before trusting any of it.
pub fn recovery_ritual_instruction(
    epic: &str,
    predecessor_generation: u32,
    repo_pin: Option<&str>,
    compiled_workflow: &str,
) -> (text: String)
    requires
        predecessor_generation < u32::MAX,
    ensures
        text@ == recovery_ritual_instruction_text(
            epic@,
            predecessor_generation,
            pin_view(repo_pin),
            compiled_workflow@,
        ),
        single_line_pin(pin_view(repo_pin)) ==> single_line(text@),
{
    proof {
        if single_line_pin(pin_view(repo_pin)) {
            lemma_recovery_ritual_single_line(
                epic@,
                predecessor_generation,
                pin_view(repo_pin),
                compiled_workflow@,
            );
        }
    }
    let epic_text = collapse_whitespace(epic);
    let is_list: bool = is_issue_list(epic_text.as_str());
    let generation: u32 = predecessor_generation + 1;
    let mut text = owned(RECOVERY_1);
    push_decimal(&mut text, generation as u64);
    text.append(RECOVERY_2);
    text.append(epic_text.as_str());
    text.append(RECOVERY_3);
    push_decimal(&mut text, predecessor_generation as u64);
    text.append(RECOVERY_4);
    text.append(recovery_read(repo_pin).as_str());
    text.append(RECOVERY_5);
    text.append(recovery_digest_relpath(epic, generation).as_str());
    text.append(RECOVERY_6);
    text.append(recovery_comment(repo_pin).as_str());
    text.append(RECOVERY_7);
    push_decimal(&mut text, generation as u64);
    text.append(RECOVERY_8);
    text.append(caution(repo_pin));
    text.append(order_contract_reminder().as_str());
    text.append(workflow_section(compiled_workflow).as_str());
    text.append(completion_declaration_clause().as_str());
    text.append(local_scheduling_clause().as_str());
    text.append(" ");
    text.append(pr_discipline_reminder(is_list).as_str());
    text
}

// ---------------------------------------------------------------------------
// Launch
// ---------------------------------------------------------------------------

/// How the epics are read.
pub open spec fn epic_read_text(epics: Seq<Seq<char>>) -> Seq<char> {
    if epics.len() > 1 {
        READ_EPICS@
    } else {
        READ_EPIC@
    }
}

/// What a first generation reads.
pub open spec fn read_subject_text(epics: Seq<Seq<char>>, issues: Seq<Seq<char>>) -> Seq<char> {
    if epics.len() > 0 && issues.len() > 1 {
        epic_read_text(epics) + PLUS_ISSUES_1@ + join_refs_text(issues) + PLUS_ISSUES_2@
    } else if epics.len() > 0 && issues.len() == 1 {
        epic_read_text(epics) + PLUS_ISSUE_1@ + join_refs_text(issues) + PLUS_ISSUE_2@
    } else if epics.len() > 0 || issues.len() == 0 {
        epic_read_text(epics)
    } else if issues.len() > 1 {
        READ_ISSUES@
    } else {
        READ_ISSUE@
    }
}

/// Where a first generation reports progress: on the epics where there are any.
pub open spec fn progress_subject_text(epics: Seq<Seq<char>>, issues: Seq<Seq<char>>) -> Seq<char> {
    if epics.len() == 0 && issues.len() > 1 {
        PROGRESS_ISSUES@
    } else if epics.len() == 0 && issues.len() == 1 {
        PROGRESS_ISSUE@
    } else if epics.len() > 1 {
        PROGRESS_EPICS@
    } else {
        PROGRESS_EPIC@
    }
}

/// Where an issue that is not ready is reported.
pub open spec fn unready_note_text(epics: Seq<Seq<char>>, issues: Seq<Seq<char>>) -> Seq<char> {
    if epics.len() == 0 && issues.len() > 0 {
        UNREADY_ISSUE@
    } else if epics.len() > 1 {
        UNREADY_EPICS@
    } else {
        UNREADY_EPIC@
    }
}

/// Whose worktree it is: one epic and nothing else owns its worktree.
pub open spec fn worktree_sentence_text(
    epics: Seq<Seq<char>>,
    issues: Seq<Seq<char>>,
) -> Seq<char> {
    if epics.len() == 1 && issues.len() == 0 {
        WORKTREE_OF_EPIC@
    } else {
        WORKTREE_OF_RUN@
    }
}

/// How `gh` is called for reading.
pub open spec fn gh_clause_text(repo_pin: Option<Seq<char>>) -> Seq<char> {
    match repo_pin {
        Some(pin) => GH_PINNED_1@ + pin + GH_PINNED_2@,
        None => GH_UNPINNED@,
    }
}

/// How `gh` is called for comments.
pub open spec fn progress_pin_text(repo_pin: Option<Seq<char>>) -> Seq<char> {
    match repo_pin {
        Some(pin) => PROGRESS_PIN_1@ + pin + PROGRESS_PIN_2@,
        None => Seq::empty(),
    }
}

/// What [`launch_instruction`] gives for a run over `epics` and `issues`.
pub open spec fn launch_instruction_text(
    epics: Seq<Seq<char>>,
    issues: Seq<Seq<char>>,
    repo_pin: Option<Seq<char>>,
    compiled_workflow: Seq<char>,
) -> Seq<char> {
    let is_list = epics.len() == 0;
    LAUNCH_1@ + prose_text(epics, issues) + LAUNCH_2@ + worktree_sentence_text(epics, issues)
        + LAUNCH_3@ + read_subject_text(epics, issues) + gh_clause_text(repo_pin) + LAUNCH_4@
        + unready_note_text(epics, issues) + LAUNCH_5@ + progress_subject_text(epics, issues)
        + " — "@ + LAUNCH_PR_1@ + refs_word_text(is_list) + LAUNCH_PR_2@ + progress_pin_text(
        repo_pin,
    ) + LAUNCH_6@ + caution_text(repo_pin) + order_clause_text(is_list) + workflow_section_text(
        compiled_workflow,
    ) + completion_clause_text() + scheduling_clause_text()
}

/// A launch brief ends with the order contract, the workflow, the completion contract and
/// the scheduling clause, in this order, whatever the run.
pub proof fn law_a_launch_brief_ends_with_its_contracts(
    epics: Seq<Seq<char>>,
    issues: Seq<Seq<char>>,
    repo_pin: Option<Seq<char>>,
    compiled_workflow: Seq<char>,
)
    ensures
        ends_with(
            launch_instruction_text(epics, issues, repo_pin, compiled_workflow),
            order_clause_text(epics.len() == 0) + workflow_section_text(compiled_workflow)
                + completion_clause_text() + scheduling_clause_text(),
        ),
{
    let order = order_clause_text(epics.len() == 0);
    let workflow = workflow_section_text(compiled_workflow);
    let completion = completion_clause_text();
    let scheduling = scheduling_clause_text();
    let end = order + workflow + completion + scheduling;
    let text = launch_instruction_text(epics, issues, repo_pin, compiled_workflow);
    assert(text.skip(text.len() - end.len()) =~= end);
}

/// What [`launch_instruction`] gives is a single line around a single-line pin.
pub proof fn lemma_launch_single_line(
    epics: Seq<Seq<char>>,
    issues: Seq<Seq<char>>,
    repo_pin: Option<Seq<char>>,
    compiled_workflow: Seq<char>,
)
    requires
        proper_refs(epics),
        proper_refs(issues),
        single_line_pin(repo_pin),
    ensures
        single_line(launch_instruction_text(epics, issues, repo_pin, compiled_workflow)),
{
    broadcast use lemma_single_line_concat;

    lemma_clauses_single_line(compiled_workflow, epics.len() == 0);
    lemma_prose_single_line(epics, issues);
    lemma_join_refs_single_line(issues);
    crate::prompt_text::lemma_launch_choice_lines();
    crate::prompt_text::lemma_launch_lines();
    reveal_strlit(" — ");
    assert(single_line(read_subject_text(epics, issues)));
    assert(single_line(progress_subject_text(epics, issues)));
    assert(single_line(unready_note_text(epics, issues)));
    assert(single_line(worktree_sentence_text(epics, issues)));
    assert(single_line(gh_clause_text(repo_pin)));
    assert(single_line(progress_pin_text(repo_pin)));
    assert(single_line(caution_text(repo_pin)));
    let is_list = epics.len() == 0;
    let head = LAUNCH_1@ + prose_text(epics, issues) + LAUNCH_2@ + worktree_sentence_text(
        epics,
        issues,
    ) + LAUNCH_3@ + read_subject_text(epics, issues) + gh_clause_text(repo_pin) + LAUNCH_4@;
    assert(single_line(head));
    let middle = head + unready_note_text(epics, issues) + LAUNCH_5@ + progress_subject_text(
        epics,
        issues,
    ) + " — "@ + LAUNCH_PR_1@ + refs_word_text(is_list) + LAUNCH_PR_2@;
    assert(single_line(middle));
    let end = middle + progress_pin_text(repo_pin) + LAUNCH_6@ + caution_text(repo_pin)
        + order_clause_text(is_list);
    assert(single_line(end));
}

/// How the epics are read.
fn epic_read(many_epics: bool) -> (text: &'static str)
    ensures
        text@ == (if many_epics {
            READ_EPICS@
        } else {
            READ_EPIC@
        }),
{
    if many_epics {
        READ_EPICS
    } else {
        READ_EPIC
    }
}

/// What a first generation reads.
fn read_subject(refs: &RunRefs) -> (text: String)
    ensures
        text@ == read_subject_text(refs.epic_refs(), refs.issue_refs()),
{
    let epics: usize = refs.epics().len();
    let issues: usize = refs.issues().len();
    if epics > 0 && issues > 0 {
        let mut text = owned(epic_read(epics > 1));
        if issues > 1 {
            text.append(PLUS_ISSUES_1);
            text.append(refs.issue_list().as_str());
            text.append(PLUS_ISSUES_2);
        } else {
            text.append(PLUS_ISSUE_1);
            text.append(refs.issue_list().as_str());
            text.append(PLUS_ISSUE_2);
        }
        text
    } else if epics > 0 || issues == 0 {
        owned(epic_read(epics > 1))
    } else if issues > 1 {
        owned(READ_ISSUES)
    } else {
        owned(READ_ISSUE)
    }
}

/// Where a first generation reports progress.
fn progress_subject(epics: usize, issues: usize) -> (text: &'static str)
    ensures
        forall|e: Seq<Seq<char>>, i: Seq<Seq<char>>|
            e.len() == epics && i.len() == issues ==> text@ == #[trigger] progress_subject_text(
                e,
                i,
            ),
{
    if epics == 0 && issues > 1 {
        PROGRESS_ISSUES
    } else if epics == 0 && issues == 1 {
        PROGRESS_ISSUE
    } else if epics > 1 {
        PROGRESS_EPICS
    } else {
        PROGRESS_EPIC
    }
}

/// Where an issue that is not ready is reported.
fn unready_note(epics: usize, issues: usize) -> (text: &'static str)
    ensures
        forall|e: Seq<Seq<char>>, i: Seq<Seq<char>>|
            e.len() == epics && i.len() == issues ==> text@ == #[trigger] unready_note_text(e, i),
{
    if epics == 0 && issues > 0 {
        UNREADY_ISSUE
    } else if epics > 1 {
        UNREADY_EPICS
    } else {
        UNREADY_EPIC
    }
}

/// How `gh` is called for reading.
fn gh_clause(repo_pin: Option<&str>) -> (text: String)
    ensures
        text@ == gh_clause_text(pin_view(repo_pin)),
{
    match repo_pin {
        Some(pin) => {
            let mut text = owned(GH_PINNED_1);
            text.append(pin);
            text.append(GH_PINNED_2);
            text
        },
        None => owned(GH_UNPINNED),
    }
}

/// How `gh` is called for comments.
fn progress_pin(repo_pin: Option<&str>) -> (text: String)
    ensures
        text@ == progress_pin_text(pin_view(repo_pin)),
{
    match repo_pin {
        Some(pin) => {
            let mut text = owned(PROGRESS_PIN_1);
            text.append(pin);
            text.append(PROGRESS_PIN_2);
            text
        },
        None => String::new(),
    }
}

/// The first generation's brief: read the work from GitHub, plan it, work it in
/// small committed steps, report progress, keep the run's pull request current.
///
/// The wording follows what the run is scoped to: epics, stand-alone issues, or
/// both. Without a pin it carries a caution instead of `--repo`.
pub fn launch_instruction(
    refs: &RunRefs,
    repo_pin: Option<&str>,
    compiled_workflow: &str,
) -> (text: String)
    ensures
        text@ == launch_instruction_text(
            refs.epic_refs(),
            refs.issue_refs(),
            pin_view(repo_pin),
            compiled_workflow@,
        ),
        single_line_pin(pin_view(repo_pin)) ==> single_line(text@),
{
    let epics: usize = refs.epics().len();
    let issues: usize = refs.issues().len();
    proof {
        if single_line_pin(pin_view(repo_pin)) {
            lemma_launch_single_line(
                refs.epic_refs(),
                refs.issue_refs(),
                pin_view(repo_pin),
                compiled_workflow@,
            );
        }
    }
    let is_list: bool = epics == 0;
    let mut text = owned(LAUNCH_1);
    text.append(refs.prose().as_str());
    text.append(LAUNCH_2);
    if epics == 1 && issues == 0 {
        text.append(WORKTREE_OF_EPIC);
    } else {
        text.append(WORKTREE_OF_RUN);
    }
    text.append(LAUNCH_3);
    text.append(read_subject(refs).as_str());
    text.append(gh_clause(repo_pin).as_str());
    text.append(LAUNCH_4);
    text.append(unready_note(epics, issues));
    text.append(LAUNCH_5);
    text.append(progress_subject(epics, issues));
    text.append(" — ");
    text.append(LAUNCH_PR_1);
    text.append(refs_word(is_list));
    text.append(LAUNCH_PR_2);
    text.append(progress_pin(repo_pin).as_str());
    text.append(LAUNCH_6);
    text.append(caution(repo_pin));
    text.append(order_contract_clause(is_list).as_str());
    text.append(workflow_section(compiled_workflow).as_str());
    text.append(completion_declaration_clause().as_str());
    text.append(local_scheduling_clause().as_str());
    text
}

// ---------------------------------------------------------------------------
// Journaling
// ---------------------------------------------------------------------------

/// What [`journal_instruction`] gives.
pub open spec fn journal_instruction_text(journal_file: Seq<char>) -> Seq<char> {
    JOURNAL_1@ + collapse(journal_file) + JOURNAL_2@ + collapse(journal_file) + JOURNAL_3@
}

/// What [`journal_instruction`] gives is a single line.
pub proof fn lemma_journal_instruction_single_line(journal_file: Seq<char>)
    ensures
        single_line(journal_instruction_text(journal_file)),
{
    broadcast use lemma_single_line_concat;

    lemma_collapse_single_line(journal_file);
    crate::prompt_text::lemma_journal_lines();
}

/// The rider that tells an agent how to record friction in the journal at
/// `journal_file`.
pub fn journal_instruction(journal_file: &str) -> (text: String)
    ensures
        text@ == journal_instruction_text(journal_file@),
        single_line(text@),
{
    proof {
        lemma_journal_instruction_single_line(journal_file@);
    }
    let path = collapse_whitespace(journal_file);
    let mut text = owned(JOURNAL_1);
    text.append(path.as_str());
    text.append(JOURNAL_2);
    text.append(path.as_str());
    text.append(JOURNAL_3);
    text
}

} // verus!
