//! What every brief tells its session, whatever the run.

use vstd::prelude::*;
use crate::decimal::{all_digits, decimal};
use crate::handoff_file::{handoff_file_relpath_text, recovery_digest_relpath_text};
use crate::ladder::{brief_text, PendingKind};
use crate::prompts::{
    caution_text, completion_clause_text, gh_clause_text, handoff_corrective_instruction_text,
    handoff_instruction_text, journal_instruction_text, launch_instruction_text, order_clause_text,
    order_reminder_text, park_corrective_instruction_text, park_instruction_text, pr_reminder_text,
    progress_pin_text, progress_subject_text, read_subject_text, recovery_comment_text,
    recovery_read_text, recovery_ritual_instruction_text, refs_word_text, scheduling_clause_text,
    successor_opening_text, successor_ritual_instruction_text, successor_session_name_text,
    unready_note_text, workflow_section_text, worktree_sentence_text,
};
use crate::prompt_text::{
    CAUTION, COMPLETION_1, COMPLETION_2, COMPLETION_3, GH_PINNED_1, GH_PINNED_2, GH_UNPINNED,
    HEAD_UNVERIFIED, HEAD_VERIFIED, LAUNCH_1, LAUNCH_2, LAUNCH_3, LAUNCH_4, LAUNCH_5, LAUNCH_6,
    LAUNCH_PR_1, LAUNCH_PR_2, ORDER_OF_EPIC, ORDER_OF_LIST, PROGRESS_EPIC, PROGRESS_EPICS,
    PROGRESS_ISSUE, PROGRESS_ISSUES, PROGRESS_PIN_1, PROGRESS_PIN_2, READ_EPIC, READ_EPICS,
    READ_ISSUE, READ_ISSUES, RECOVERY_COMMENT, RECOVERY_COMMENT_PINNED_1, RECOVERY_COMMENT_PINNED_2,
    RECOVERY_READ, RECOVERY_READ_PINNED_1, RECOVERY_READ_PINNED_2, RUN_COMPLETE_TAG, UNREADY_EPIC,
    UNREADY_EPICS, UNREADY_ISSUE, WORKFLOW_1, WORKFLOW_2, WORKTREE_OF_EPIC, WORKTREE_OF_RUN,
};
use crate::run_refs::{
    display_ref_text, epic_phrase_text, issue_phrase_text, join_refs_text, label_text,
    normalized_ref, normalized_refs, phrase_text, prose_text,
};
use crate::words::{collapse, contains, join, occurs_at};

verus! {

// ---------------------------------------------------------------------------
// Texts within texts
// ---------------------------------------------------------------------------

/// What stands between two texts stands in the whole.
pub proof fn lemma_stands(before: Seq<char>, text: Seq<char>, after: Seq<char>)
    ensures
        contains(before + text + after, text),
{
    let all = before + text + after;
    let n = before.len() as int;
    assert(all.subrange(n, n + text.len()) =~= text);
    assert(occurs_at(all, text, n));
}

/// The last two of three texts stand in the three together.
pub proof fn lemma_stands_last(a: Seq<char>, b: Seq<char>, c: Seq<char>)
    ensures
        contains(a + b + c, b + c),
{
    let all = a + b + c;
    let n = a.len() as int;
    let end = b + c;
    assert(all.subrange(n, n + end.len()) =~= end);
    assert(occurs_at(all, end, n));
}

/// What stands in a text stands in every text around it.
pub proof fn lemma_stands_within(
    before: Seq<char>,
    text: Seq<char>,
    after: Seq<char>,
    part: Seq<char>,
)
    requires
        contains(text, part),
    ensures
        contains(before + text + after, part),
{
    let all = before + text + after;
    let i = choose|i: int| occurs_at(text, part, i);
    let n = before.len() + i;
    assert(all.subrange(n, n + part.len()) =~= text.subrange(i, i + part.len()));
    assert(occurs_at(all, part, n));
}

/// What stands in a part of a text stands in the text.
pub proof fn lemma_stands_through(text: Seq<char>, part: Seq<char>, inner: Seq<char>)
    requires
        contains(text, part),
        contains(part, inner),
    ensures
        contains(text, inner),
{
    let i = choose|i: int| occurs_at(text, part, i);
    let before = text.take(i);
    let after = text.skip(i + part.len());
    assert(text =~= before + part + after);
    lemma_stands_within(before, part, after, inner);
}

/// Each of three texts stands in the three together.
proof fn lemma_three(a: Seq<char>, b: Seq<char>, c: Seq<char>)
    ensures
        contains(a + b + c, a),
        contains(a + b + c, b),
        contains(a + b + c, c),
{
    let none = Seq::<char>::empty();
    lemma_stands(none, a, b + c);
    assert(none + a + (b + c) =~= a + b + c);
    lemma_stands(a, b, c);
    lemma_stands(a + b, c, none);
    assert(a + b + c + none =~= a + b + c);
}

/// Each of four texts stands in the four together.
proof fn lemma_four(a: Seq<char>, b: Seq<char>, c: Seq<char>, d: Seq<char>)
    ensures
        contains(a + b + c + d, a),
        contains(a + b + c + d, b),
        contains(a + b + c + d, c),
        contains(a + b + c + d, d),
{
    let front = a + b;
    lemma_three(front, c, d);
    lemma_three(a, b, Seq::empty());
    assert(a + b + Seq::<char>::empty() =~= front);
    lemma_stands_through(front + c + d, front, a);
    lemma_stands_through(front + c + d, front, b);
}

/// Each of five texts stands in the five together.
proof fn lemma_five(a: Seq<char>, b: Seq<char>, c: Seq<char>, d: Seq<char>, e: Seq<char>)
    ensures
        contains(a + b + c + d + e, a),
        contains(a + b + c + d + e, b),
        contains(a + b + c + d + e, c),
        contains(a + b + c + d + e, d),
        contains(a + b + c + d + e, e),
{
    let front = a + b + c;
    lemma_three(front, d, e);
    lemma_three(a, b, c);
    lemma_stands_through(front + d + e, front, a);
    lemma_stands_through(front + d + e, front, b);
    lemma_stands_through(front + d + e, front, c);
}

/// Texts one after the other may be put together first.
proof fn lemma_regroup(
    x: Seq<char>,
    a: Seq<char>,
    b: Seq<char>,
    c: Seq<char>,
    d: Seq<char>,
    e: Seq<char>,
)
    ensures
        x + (a + b + c + d + e) == x + a + b + c + d + e,
{
    assert(x + (a + b + c + d + e) =~= x + a + b + c + d + e);
}

/// Every part of a list stands in the list.
pub proof fn lemma_listed(parts: Seq<Seq<char>>, sep: Seq<char>, k: int)
    requires
        0 <= k < parts.len(),
    ensures
        contains(join(parts, sep), parts[k]),
    decreases parts.len(),
{
    let none = Seq::<char>::empty();
    if parts.len() == 1 {
        lemma_stands(none, parts[0], none);
        assert(none + parts[0] + none =~= parts[0]);
    } else {
        let init = parts.drop_last();
        let head = join(init, sep);
        let last = parts.last();
        if k == parts.len() - 1 {
            lemma_stands(head + sep, last, none);
            assert(head + sep + last + none =~= join(parts, sep));
        } else {
            lemma_listed(init, sep, k);
            lemma_stands_within(none, head, sep + last, init[k]);
            assert(none + head + (sep + last) =~= join(parts, sep));
        }
    }
}

// ---------------------------------------------------------------------------
// References
// ---------------------------------------------------------------------------

/// A number is shown with its `#`, any other reference as it is.
pub proof fn law_how_a_reference_is_shown(r: Seq<char>)
    ensures
        (forall|i: int| 0 <= i < r.len() ==> '0' <= #[trigger] r[i] <= '9') ==> display_ref_text(r)
            == seq!['#'] + r,
        (exists|i: int| 0 <= i < r.len() && !('0' <= #[trigger] r[i] <= '9')) ==> display_ref_text(
            r,
        ) == r,
{
    reveal_strlit("#");
    assert("#"@ =~= seq!['#']);
    if forall|i: int| 0 <= i < r.len() ==> '0' <= #[trigger] r[i] <= '9' {
        assert forall|i: int| 0 <= i < r.len() implies #[trigger] crate::text::is_digit(
            r[i],
        ) by {}
        assert(all_digits(r));
    }
    if exists|i: int| 0 <= i < r.len() && !('0' <= #[trigger] r[i] <= '9') {
        let i = choose|i: int| 0 <= i < r.len() && !('0' <= #[trigger] r[i] <= '9');
        assert(!crate::text::is_digit(r[i]));
    }
}

/// The references of a run are those that carry something, each normalized, in the order
/// given: one more that carries something comes last, one that carries nothing is dropped.
pub proof fn law_one_more_reference(raw: Seq<Seq<char>>, more: Seq<char>)
    ensures
        normalized_refs(Seq::empty()).len() == 0,
        normalized_ref(more) is None ==> normalized_refs(raw.push(more)) == normalized_refs(raw),
        normalized_ref(more) matches Some(bare) ==> normalized_refs(raw.push(more))
            == normalized_refs(raw).push(bare),
{
    assert(raw.push(more).drop_last() =~= raw);
}

/// Every reference is named in the label of its run and in the prose about it, as it is
/// shown.
pub proof fn law_a_run_is_named_by_all_its_references(
    epics: Seq<Seq<char>>,
    issues: Seq<Seq<char>>,
)
    ensures
        forall|k: int|
            0 <= k < epics.len() ==> contains(
                label_text(epics, issues),
                display_ref_text(#[trigger] epics[k]),
            ) && contains(prose_text(epics, issues), display_ref_text(epics[k])),
        forall|k: int|
            0 <= k < issues.len() ==> contains(
                label_text(epics, issues),
                display_ref_text(#[trigger] issues[k]),
            ) && contains(prose_text(epics, issues), display_ref_text(issues[k])),
{
    let none = Seq::<char>::empty();
    let e = epic_phrase_text(epics);
    let i = issue_phrase_text(issues);
    let label = label_text(epics, issues);
    let prose = prose_text(epics, issues);
    assert forall|k: int| 0 <= k < epics.len() implies contains(
        label,
        display_ref_text(#[trigger] epics[k]),
    ) && contains(prose, display_ref_text(epics[k])) by {
        let shown = display_ref_text(epics[k]);
        lemma_phrase("epic"@, "epics"@, epics, k);
        if issues.len() > 0 {
            lemma_stands_within(none, e, " · "@ + i, shown);
            assert(none + e + (" · "@ + i) =~= label);
            lemma_stands_within("GitHub "@, e, " and "@ + i, shown);
            assert("GitHub "@ + e + (" and "@ + i) =~= prose);
        } else {
            lemma_stands_within("GitHub "@, e, none, shown);
            assert("GitHub "@ + e + none =~= prose);
        }
    }
    assert forall|k: int| 0 <= k < issues.len() implies contains(
        label,
        display_ref_text(#[trigger] issues[k]),
    ) && contains(prose, display_ref_text(issues[k])) by {
        let shown = display_ref_text(issues[k]);
        lemma_phrase("issue"@, "issues"@, issues, k);
        if epics.len() > 0 {
            lemma_stands_within(e + " · "@, i, none, shown);
            assert(e + " · "@ + i + none =~= label);
            lemma_stands_within("GitHub "@ + e + " and "@, i, none, shown);
            assert("GitHub "@ + e + " and "@ + i + none =~= prose);
        } else {
            lemma_stands_within("GitHub "@, i, none, shown);
            assert("GitHub "@ + i + none =~= prose);
        }
    }
}

proof fn lemma_phrase(one: Seq<char>, many: Seq<char>, refs: Seq<Seq<char>>, k: int)
    requires
        0 <= k < refs.len(),
    ensures
        contains(phrase_text(one, many, refs), display_ref_text(refs[k])),
{
    let none = Seq::<char>::empty();
    let shown = refs.map_values(|r: Seq<char>| display_ref_text(r));
    lemma_listed(shown, ", "@, k);
    assert(shown[k] == display_ref_text(refs[k]));
    let noun = if refs.len() == 1 {
        one
    } else {
        many
    };
    lemma_stands_within(noun + " "@, join_refs_text(refs), none, display_ref_text(refs[k]));
    assert(noun + " "@ + join_refs_text(refs) + none =~= phrase_text(one, many, refs));
}

/// One reference takes the singular, several the plural.
pub proof fn law_nouns_are_counted(refs: Seq<Seq<char>>)
    ensures
        refs.len() == 0 ==> epic_phrase_text(refs).len() == 0 && issue_phrase_text(refs).len() == 0,
        refs.len() == 1 ==> epic_phrase_text(refs) == "epic "@ + display_ref_text(refs[0])
            && issue_phrase_text(refs) == "issue "@ + display_ref_text(refs[0]),
        refs.len() > 1 ==> epic_phrase_text(refs) == "epics "@ + join_refs_text(refs)
            && issue_phrase_text(refs) == "issues "@ + join_refs_text(refs),
{
    reveal_strlit("epic");
    reveal_strlit("epics");
    reveal_strlit("issue");
    reveal_strlit("issues");
    reveal_strlit("epic ");
    reveal_strlit("epics ");
    reveal_strlit("issue ");
    reveal_strlit("issues ");
    reveal_strlit(" ");
    assert("epic "@ =~= "epic"@ + " "@);
    assert("epics "@ =~= "epics"@ + " "@);
    assert("issue "@ =~= "issue"@ + " "@);
    assert("issues "@ =~= "issues"@ + " "@);
    if refs.len() == 1 {
        assert(refs.map_values(|r: Seq<char>| display_ref_text(r))[0] == display_ref_text(refs[0]));
    }
}

// ---------------------------------------------------------------------------
// Briefs
// ---------------------------------------------------------------------------

/// The repository is named in a `--repo` argument.
pub open spec fn names_repo(text: Seq<char>, pin: Seq<char>) -> bool {
    contains(text, "`--repo "@ + pin + "`"@)
}

proof fn lemma_names_repo(before: Seq<char>, pin: Seq<char>, after: Seq<char>)
    requires
        before.len() >= 8,
        before.skip(before.len() - 8) == "`--repo "@,
        after.len() >= 1,
        after[0] == '`',
    ensures
        names_repo(before + pin + after, pin),
{
    reveal_strlit("`--repo ");
    reveal_strlit("`");
    let head = before.take(before.len() - 8);
    let tail = after.skip(1);
    let named = "`--repo "@ + pin + "`"@;
    lemma_stands(head, named, tail);
    assert(before =~= head + "`--repo "@);
    assert(after =~= "`"@ + tail);
    assert(head + named + tail =~= before + pin + after);
}

/// Every clause about `gh` names a pinned repository; without a pin the clauses name none,
/// and the caution stands in their place.
pub proof fn law_every_clause_names_the_repository(pin: Seq<char>)
    ensures
        names_repo(gh_clause_text(Some(pin)), pin),
        names_repo(progress_pin_text(Some(pin)), pin),
        names_repo(recovery_read_text(Some(pin)), pin),
        names_repo(recovery_comment_text(Some(pin)), pin),
        caution_text(Some(pin)).len() == 0,
        gh_clause_text(None) == GH_UNPINNED@,
        progress_pin_text(None).len() == 0,
        recovery_read_text(None) == RECOVERY_READ@,
        recovery_comment_text(None) == RECOVERY_COMMENT@,
        caution_text(None) == CAUTION@,
{
    reveal_strlit("`--repo ");
    reveal_strlit(" with the `gh` CLI, passing `--repo ");
    reveal_strlit("` explicitly on every `gh` command");
    reveal_strlit(" (again via `gh` with `--repo ");
    reveal_strlit("` on every command)");
    reveal_strlit(
        "read this run's GitHub issue(s) and ALL of their comments with the `gh` CLI, passing \
     `--repo ",
    );
    reveal_strlit("comment on this run's GitHub issue(s) (again via `gh` with `--repo ");
    reveal_strlit("`)");
    assert(GH_PINNED_1@.skip(GH_PINNED_1@.len() - 8) =~= "`--repo "@);
    lemma_names_repo(GH_PINNED_1@, pin, GH_PINNED_2@);
    assert(PROGRESS_PIN_1@.skip(PROGRESS_PIN_1@.len() - 8) =~= "`--repo "@);
    lemma_names_repo(PROGRESS_PIN_1@, pin, PROGRESS_PIN_2@);
    assert(RECOVERY_READ_PINNED_1@.skip(RECOVERY_READ_PINNED_1@.len() - 8) =~= "`--repo "@);
    lemma_names_repo(RECOVERY_READ_PINNED_1@, pin, RECOVERY_READ_PINNED_2@);
    assert(RECOVERY_COMMENT_PINNED_1@.skip(RECOVERY_COMMENT_PINNED_1@.len() - 8)
        =~= "`--repo "@);
    lemma_names_repo(RECOVERY_COMMENT_PINNED_1@, pin, RECOVERY_COMMENT_PINNED_2@);
}

/// The parts of a launch brief around the prose about its run.
proof fn lemma_launch_parts(
    epics: Seq<Seq<char>>,
    issues: Seq<Seq<char>>,
    repo_pin: Option<Seq<char>>,
    compiled_workflow: Seq<char>,
)
    ensures
        ({
            let text = launch_instruction_text(epics, issues, repo_pin, compiled_workflow);
            &&& contains(text, prose_text(epics, issues))
            &&& contains(text, worktree_sentence_text(epics, issues))
            &&& contains(text, read_subject_text(epics, issues))
            &&& contains(text, gh_clause_text(repo_pin))
            &&& contains(text, unready_note_text(epics, issues))
            &&& contains(text, progress_subject_text(epics, issues))
            &&& contains(text, progress_pin_text(repo_pin))
            &&& contains(text, caution_text(repo_pin))
            &&& contains(text, order_clause_text(epics.len() == 0))
            &&& contains(text, workflow_section_text(compiled_workflow))
            &&& contains(text, completion_clause_text())
            &&& contains(text, scheduling_clause_text())
        }),
{
    let text = launch_instruction_text(epics, issues, repo_pin, compiled_workflow);
    let is_list = epics.len() == 0;
    let prose = prose_text(epics, issues);
    let worktree = worktree_sentence_text(epics, issues);
    let read = read_subject_text(epics, issues);
    let gh = gh_clause_text(repo_pin);
    let unready = unready_note_text(epics, issues);
    let progress = progress_subject_text(epics, issues);
    let pin = progress_pin_text(repo_pin);
    let caution = caution_text(repo_pin);
    let order = order_clause_text(is_list);
    let workflow = workflow_section_text(compiled_workflow);
    let completion = completion_clause_text();
    let scheduling = scheduling_clause_text();
    let refs = refs_word_text(is_list);
    let first = LAUNCH_1@ + prose + LAUNCH_2@ + worktree + LAUNCH_3@;
    let second = read + gh + LAUNCH_4@ + unready + LAUNCH_5@;
    let middle = progress + " — "@ + LAUNCH_PR_1@ + refs + LAUNCH_PR_2@;
    let third = middle + pin + LAUNCH_6@;
    let fourth = caution + order + workflow + completion + scheduling;
    lemma_regroup(first, read, gh, LAUNCH_4@, unready, LAUNCH_5@);
    let half = first + second;
    lemma_regroup(half, progress, " — "@, LAUNCH_PR_1@, refs, LAUNCH_PR_2@);
    let most = half + middle + pin + LAUNCH_6@;
    assert(half + third =~= most);
    lemma_regroup(most, caution, order, workflow, completion, scheduling);
    assert(text == half + third + fourth);
    lemma_five(LAUNCH_1@, prose, LAUNCH_2@, worktree, LAUNCH_3@);
    lemma_five(read, gh, LAUNCH_4@, unready, LAUNCH_5@);
    lemma_five(progress, " — "@, LAUNCH_PR_1@, refs, LAUNCH_PR_2@);
    lemma_three(middle, pin, LAUNCH_6@);
    lemma_stands_through(third, middle, progress);
    lemma_five(caution, order, workflow, completion, scheduling);
    lemma_four(first, second, third, fourth);
    lemma_stands_through(text, first, prose);
    lemma_stands_through(text, first, worktree);
    lemma_stands_through(text, second, read);
    lemma_stands_through(text, second, gh);
    lemma_stands_through(text, second, unready);
    lemma_stands_through(text, third, progress);
    lemma_stands_through(text, third, pin);
    lemma_stands_through(text, fourth, caution);
    lemma_stands_through(text, fourth, order);
    lemma_stands_through(text, fourth, workflow);
    lemma_stands_through(text, fourth, completion);
    lemma_stands_through(text, fourth, scheduling);
}

/// A launch brief names every epic and every issue of its run. With a pinned repository it
/// names that in a `--repo` argument; without one it carries the caution.
pub proof fn law_a_launch_brief_names_its_work(
    epics: Seq<Seq<char>>,
    issues: Seq<Seq<char>>,
    repo_pin: Option<Seq<char>>,
    compiled_workflow: Seq<char>,
)
    ensures
        ({
            let text = launch_instruction_text(epics, issues, repo_pin, compiled_workflow);
            &&& forall|k: int|
                0 <= k < epics.len() ==> contains(text, display_ref_text(#[trigger] epics[k]))
            &&& forall|k: int|
                0 <= k < issues.len() ==> contains(text, display_ref_text(#[trigger] issues[k]))
            &&& repo_pin matches Some(pin) ==> names_repo(text, pin)
            &&& repo_pin is None ==> contains(text, CAUTION@) && contains(text, GH_UNPINNED@)
            &&& contains(text, progress_pin_text(repo_pin))
            &&& contains(text, read_subject_text(epics, issues))
            &&& contains(text, progress_subject_text(epics, issues))
            &&& contains(text, unready_note_text(epics, issues))
            &&& contains(text, worktree_sentence_text(epics, issues))
            &&& collapse(compiled_workflow).len() > 0 ==> contains(
                text,
                collapse(compiled_workflow),
            )
            &&& contains(text, completion_clause_text())
            &&& contains(text, scheduling_clause_text())
        }),
{
    let text = launch_instruction_text(epics, issues, repo_pin, compiled_workflow);
    let prose = prose_text(epics, issues);
    lemma_launch_parts(epics, issues, repo_pin, compiled_workflow);
    law_a_run_is_named_by_all_its_references(epics, issues);
    assert forall|k: int| 0 <= k < epics.len() implies contains(
        text,
        display_ref_text(#[trigger] epics[k]),
    ) by {
        lemma_stands_through(text, prose, display_ref_text(epics[k]));
    }
    assert forall|k: int| 0 <= k < issues.len() implies contains(
        text,
        display_ref_text(#[trigger] issues[k]),
    ) by {
        lemma_stands_through(text, prose, display_ref_text(issues[k]));
    }
    if repo_pin is Some {
        let pin = repo_pin->0;
        law_every_clause_names_the_repository(pin);
        lemma_stands_through(text, gh_clause_text(repo_pin), "`--repo "@ + pin + "`"@);
    }
    lemma_workflow(compiled_workflow);
    if collapse(compiled_workflow).len() > 0 {
        lemma_stands_through(
            text,
            workflow_section_text(compiled_workflow),
            collapse(compiled_workflow),
        );
    }
}

proof fn lemma_workflow(compiled_workflow: Seq<char>)
    ensures
        collapse(compiled_workflow).len() > 0 ==> contains(
            workflow_section_text(compiled_workflow),
            collapse(compiled_workflow),
        ),
        collapse(compiled_workflow).len() == 0 ==> workflow_section_text(compiled_workflow).len()
            == 0,
{
    lemma_stands(WORKFLOW_1@, collapse(compiled_workflow), WORKFLOW_2@);
}

/// A successor's brief names its own generation, the one before it, the run and the
/// handoff file of the one before it. It says that the recorded HEAD was confirmed exactly
/// if it was, and carries the workflow and the contracts.
pub proof fn law_what_a_successor_is_told(
    epic: Seq<char>,
    predecessor: u32,
    head_matched: bool,
    compiled_workflow: Seq<char>,
)
    requires
        predecessor < u32::MAX,
    ensures
        ({
            let text = successor_ritual_instruction_text(
                epic,
                predecessor,
                head_matched,
                compiled_workflow,
            );
            &&& contains(text, "You are generation "@ + decimal((predecessor + 1) as nat))
            &&& contains(text, "successor to generation "@ + decimal(predecessor as nat))
            &&& contains(text, collapse(epic))
            &&& contains(text, handoff_file_relpath_text(epic, predecessor))
            &&& head_matched ==> contains(text, HEAD_VERIFIED@)
            &&& !head_matched ==> contains(text, HEAD_UNVERIFIED@)
            &&& collapse(compiled_workflow).len() > 0 ==> contains(
                text,
                collapse(compiled_workflow),
            )
            &&& contains(text, order_reminder_text())
            &&& contains(text, completion_clause_text())
            &&& contains(text, scheduling_clause_text())
            &&& contains(text, pr_reminder_text(collapse(epic).contains(',')))
        }),
{
    let text = successor_ritual_instruction_text(
        epic,
        predecessor,
        head_matched,
        compiled_workflow,
    );
    let opening = successor_opening_text(epic, predecessor);
    let verdict = if head_matched {
        HEAD_VERIFIED@
    } else {
        HEAD_UNVERIFIED@
    };
    let order = order_reminder_text();
    let workflow = workflow_section_text(compiled_workflow);
    let completion = completion_clause_text();
    let scheduling = scheduling_clause_text();
    let pr = pr_reminder_text(collapse(epic).contains(','));
    let front = opening + verdict + order + workflow + completion;
    lemma_five(opening, verdict, order, workflow, completion);
    lemma_four(front, scheduling, " "@, pr);
    lemma_stands_through(text, front, opening);
    lemma_stands_through(text, front, verdict);
    lemma_stands_through(text, front, order);
    lemma_stands_through(text, front, workflow);
    lemma_stands_through(text, front, completion);
    lemma_workflow(compiled_workflow);
    if collapse(compiled_workflow).len() > 0 {
        lemma_stands_through(text, workflow, collapse(compiled_workflow));
    }
    lemma_opening(epic, predecessor);
    lemma_stands_through(
        text,
        opening,
        "You are generation "@ + decimal((predecessor + 1) as nat),
    );
    lemma_stands_through(text, opening, "successor to generation "@ + decimal(predecessor as nat));
    lemma_stands_through(text, opening, collapse(epic));
    lemma_stands_through(text, opening, handoff_file_relpath_text(epic, predecessor));
}

proof fn lemma_opening(epic: Seq<char>, predecessor: u32)
    ensures
        ({
            let opening = successor_opening_text(epic, predecessor);
            &&& contains(opening, "You are generation "@ + decimal((predecessor + 1) as nat))
            &&& contains(opening, "successor to generation "@ + decimal(predecessor as nat))
            &&& contains(opening, collapse(epic))
            &&& contains(opening, handoff_file_relpath_text(epic, predecessor))
        }),
{
    reveal_strlit("[Maestro Samurai] You are generation ");
    reveal_strlit("[Maestro Samurai] ");
    reveal_strlit("You are generation ");
    reveal_strlit(", successor to generation ");
    reveal_strlit(", ");
    reveal_strlit("successor to generation ");
    let opening = successor_opening_text(epic, predecessor);
    let own = decimal((predecessor + 1) as nat);
    let other = decimal(predecessor as nat);
    let name = collapse(epic);
    let path = handoff_file_relpath_text(epic, predecessor);
    let s1 = "[Maestro Samurai] You are generation "@;
    let s2 = " for "@;
    let s3 = ", successor to generation "@;
    let s4 = ". Read the handoff file at "@;
    let s5 = crate::prompt_text::SUCCESSOR_5@;
    assert(s1 =~= "[Maestro Samurai] "@ + "You are generation "@);
    assert(s3 =~= ", "@ + "successor to generation "@);
    lemma_stands(
        "[Maestro Samurai] "@,
        "You are generation "@ + own,
        s2 + name + s3 + other + s4 + path + s5,
    );
    assert("[Maestro Samurai] "@ + ("You are generation "@ + own) + (s2 + name + s3 + other + s4
        + path + s5) =~= opening);
    lemma_stands(s1 + own + s2, name, s3 + other + s4 + path + s5);
    assert(s1 + own + s2 + name + (s3 + other + s4 + path + s5) =~= opening);
    lemma_stands(
        s1 + own + s2 + name + ", "@,
        "successor to generation "@ + other,
        s4 + path + s5,
    );
    assert(s1 + own + s2 + name + ", "@ + ("successor to generation "@ + other) + (s4 + path + s5)
        =~= opening);
    lemma_stands(s1 + own + s2 + name + s3 + other + s4, path, s5);
}

/// A recovery brief names the run, both generations and the transcript digest, and carries
/// the workflow and the contracts. With a pinned repository it names that in a `--repo`
/// argument; without one it carries the caution.
pub proof fn law_what_a_recovering_generation_is_told(
    epic: Seq<char>,
    predecessor: u32,
    repo_pin: Option<Seq<char>>,
    compiled_workflow: Seq<char>,
)
    requires
        predecessor < u32::MAX,
    ensures
        ({
            let text = recovery_ritual_instruction_text(
                epic,
                predecessor,
                repo_pin,
                compiled_workflow,
            );
            &&& contains(text, collapse(epic))
            &&& contains(text, recovery_digest_relpath_text(epic, (predecessor + 1) as u32))
            &&& repo_pin matches Some(pin) ==> names_repo(text, pin)
            &&& repo_pin is None ==> contains(text, CAUTION@)
            &&& contains(text, recovery_read_text(repo_pin))
            &&& contains(text, recovery_comment_text(repo_pin))
            &&& collapse(compiled_workflow).len() > 0 ==> contains(
                text,
                collapse(compiled_workflow),
            )
            &&& contains(text, order_reminder_text())
            &&& contains(text, completion_clause_text())
            &&& contains(text, scheduling_clause_text())
            &&& contains(text, pr_reminder_text(collapse(epic).contains(',')))
        }),
{
    let text = recovery_ritual_instruction_text(epic, predecessor, repo_pin, compiled_workflow);
    let generation = (predecessor + 1) as u32;
    let own = decimal(generation as nat);
    let other = decimal(predecessor as nat);
    let name = collapse(epic);
    let path = recovery_digest_relpath_text(epic, generation);
    let read = recovery_read_text(repo_pin);
    let comment = recovery_comment_text(repo_pin);
    let r1 = crate::prompt_text::RECOVERY_1@;
    let r2 = crate::prompt_text::RECOVERY_2@;
    let r3 = crate::prompt_text::RECOVERY_3@;
    let r4 = crate::prompt_text::RECOVERY_4@;
    let r5 = crate::prompt_text::RECOVERY_5@;
    let r6 = crate::prompt_text::RECOVERY_6@;
    let r7 = crate::prompt_text::RECOVERY_7@;
    let r8 = crate::prompt_text::RECOVERY_8@;
    let caution = caution_text(repo_pin);
    let order = order_reminder_text();
    let workflow = workflow_section_text(compiled_workflow);
    let completion = completion_clause_text();
    let scheduling = scheduling_clause_text();
    let pr = pr_reminder_text(collapse(epic).contains(','));
    let first = r1 + own + r2 + name + r3 + other + r4;
    let second = read + r5 + path + r6 + comment + r7 + own + r8;
    let contracts = caution + order + workflow + completion + scheduling;
    let third = contracts + " "@ + pr;
    assert(text =~= first + second + third);
    lemma_five(r1, own, r2, name, r3);
    lemma_three(r1 + own + r2 + name + r3, other, r4);
    lemma_stands_through(first, r1 + own + r2 + name + r3, name);
    lemma_five(read, r5, path, r6, comment);
    lemma_four(read + r5 + path + r6 + comment, r7, own, r8);
    lemma_stands_through(second, read + r5 + path + r6 + comment, read);
    lemma_stands_through(second, read + r5 + path + r6 + comment, path);
    lemma_stands_through(second, read + r5 + path + r6 + comment, comment);
    lemma_five(caution, order, workflow, completion, scheduling);
    lemma_three(contracts, " "@, pr);
    lemma_stands_through(third, contracts, caution);
    lemma_stands_through(third, contracts, order);
    lemma_stands_through(third, contracts, workflow);
    lemma_stands_through(third, contracts, completion);
    lemma_stands_through(third, contracts, scheduling);
    lemma_three(first, second, third);
    lemma_stands_through(text, first, name);
    lemma_stands_through(text, second, path);
    lemma_stands_through(text, second, read);
    lemma_stands_through(text, second, comment);
    lemma_stands_through(text, third, caution);
    lemma_stands_through(text, third, order);
    lemma_stands_through(text, third, workflow);
    lemma_stands_through(text, third, completion);
    lemma_stands_through(text, third, scheduling);
    lemma_stands_through(text, third, pr);
    if repo_pin is Some {
        let pin = repo_pin->0;
        law_every_clause_names_the_repository(pin);
        lemma_stands_through(text, read, "`--repo "@ + pin + "`"@);
    }
    lemma_workflow(compiled_workflow);
    if collapse(compiled_workflow).len() > 0 {
        lemma_stands_through(text, workflow, collapse(compiled_workflow));
    }
}

/// A handoff or park brief names the file to write; the brief of a corrective round also
/// says what went wrong.
pub proof fn law_a_brief_names_its_file(
    kind: PendingKind,
    epic: Seq<char>,
    generation: u32,
    corrective: bool,
    failure: Seq<char>,
    episode: u32,
)
    requires
        kind == PendingKind::Handoff || kind == PendingKind::Park,
    ensures
        ({
            let text = brief_text(kind, epic, generation, corrective, failure, episode);
            &&& contains(text, handoff_file_relpath_text(epic, generation))
            &&& corrective ==> contains(text, collapse(failure))
            &&& kind == PendingKind::Park && !corrective ==> contains(
                text,
                scheduling_clause_text(),
            )
        }),
{
    let path = handoff_file_relpath_text(epic, generation);
    let none = Seq::<char>::empty();
    if kind == PendingKind::Handoff {
        if corrective {
            let text = handoff_corrective_instruction_text(epic, generation, failure);
            let h1 = crate::prompt_text::HANDOFF_FIX_1@;
            let h2 = crate::prompt_text::HANDOFF_FIX_2@;
            let h3 = crate::prompt_text::HANDOFF_FIX_3@;
            let n = decimal(generation as nat);
            let what = collapse(failure);
            let head = h1 + what + h2 + n + h3;
            let tail = text.skip((head + path).len() as int);
            assert(text =~= head + path + tail);
            lemma_stands(head, path, tail);
            lemma_stands(h1, what, h2 + n + h3 + path + tail);
            assert(h1 + what + (h2 + n + h3 + path + tail) =~= text);
        } else {
            let text = handoff_instruction_text(epic, generation);
            let h1 = crate::prompt_text::HANDOFF_1@;
            let h2 = crate::prompt_text::HANDOFF_2@;
            let head = h1 + crate::marker_values::handoff_ack_value_text(generation) + h2;
            let tail = text.skip((head + path).len() as int);
            assert(text =~= head + path + tail);
            lemma_stands(head, path, tail);
        }
    } else {
        if corrective {
            let text = park_corrective_instruction_text(epic, generation, failure);
            let p1 = crate::prompt_text::PARK_FIX_1@;
            let p2 = crate::prompt_text::PARK_FIX_2@;
            let p3 = crate::prompt_text::PARK_FIX_3@;
            let n = decimal(generation as nat);
            let what = collapse(failure);
            let head = p1 + what + p2 + n + p3;
            let tail = text.skip((head + path).len() as int);
            assert(text =~= head + path + tail);
            lemma_stands(head, path, tail);
            lemma_stands(p1, what, p2 + n + p3 + path + tail);
            assert(p1 + what + (p2 + n + p3 + path + tail) =~= text);
        } else {
            let text = park_instruction_text(epic, generation);
            let p1 = crate::prompt_text::PARK_1@;
            let p2 = crate::prompt_text::PARK_2@;
            let head = p1 + crate::marker_values::park_ack_value_text(generation) + p2;
            let tail = text.skip((head + path).len() as int);
            assert(text =~= head + path + tail);
            lemma_stands(head, path, tail);
            let front = text.take(text.len() - scheduling_clause_text().len());
            assert(text =~= front + scheduling_clause_text() + none);
            lemma_stands(front, scheduling_clause_text(), none);
        }
    }
}

/// The completion contract spells the tag that a finished run replies with, opened and
/// closed.
pub proof fn law_the_completion_contract_spells_its_tag()
    ensures
        contains(completion_clause_text(), "<samurai-run-complete>"@),
        contains(completion_clause_text(), "</samurai-run-complete>"@),
{
    let text = completion_clause_text();
    let tag = RUN_COMPLETE_TAG@;
    reveal_strlit("samurai-run-complete");
    reveal_strlit("<samurai-run-complete>");
    reveal_strlit("</samurai-run-complete>");
    reveal_strlit(">issues #<a> #<b> pr #<n></");
    crate::prompt_text::lemma_clause_lines();
    let c1 = COMPLETION_1@;
    let c2 = COMPLETION_2@;
    let c3 = COMPLETION_3@;
    let h1 = c1.take(c1.len() - 1);
    let t2 = c2.skip(1);
    assert(c1 =~= h1.push('<'));
    assert(c2 =~= seq!['>'] + t2);
    lemma_stands(h1, "<samurai-run-complete>"@, t2 + tag + c3);
    assert("<samurai-run-complete>"@ =~= seq!['<'] + tag + seq!['>']);
    assert(h1 + "<samurai-run-complete>"@ + (t2 + tag + c3) =~= text);
    let h2 = c2.take(c2.len() - 2);
    let t3 = c3.skip(1);
    assert(c2 =~= h2 + seq!['<', '/']);
    assert(c3 =~= seq!['>'] + t3);
    lemma_stands(c1 + tag + h2, "</samurai-run-complete>"@, t3);
    assert("</samurai-run-complete>"@ =~= seq!['<', '/'] + tag + seq!['>']);
    assert(c1 + tag + h2 + "</samurai-run-complete>"@ + t3 =~= text);
}

/// The journal rider names the journal file.
pub proof fn law_the_journal_rider_names_its_file(journal_file: Seq<char>)
    ensures
        contains(journal_instruction_text(journal_file), collapse(journal_file)),
{
    let j1 = crate::prompt_text::JOURNAL_1@;
    let j2 = crate::prompt_text::JOURNAL_2@;
    let j3 = crate::prompt_text::JOURNAL_3@;
    let path = collapse(journal_file);
    lemma_stands(j1, path, j2 + path + j3);
    assert(j1 + path + (j2 + path + j3) =~= journal_instruction_text(journal_file));
}

/// A session is named by its generation and the slug of its run.
pub proof fn law_how_a_session_is_named(epic: Seq<char>, generation: u32)
    ensures
        successor_session_name_text(epic, generation) == "samurai gen-"@ + decimal(
            generation as nat,
        ) + " "@ + crate::handoff_file::epic_slug_text(epic),
{
}

/// The wording of a launch brief follows the run: an epic or several, with or without
/// stand-alone issues, or issues alone. Progress goes on the epics where there are any,
/// else on the issues; only a run of one epic alone has that epic's worktree.
pub proof fn law_the_wording_follows_the_run(epics: Seq<Seq<char>>, issues: Seq<Seq<char>>)
    ensures
        epics.len() == 0 && issues.len() == 1 ==> read_subject_text(epics, issues) == READ_ISSUE@
            && progress_subject_text(epics, issues) == PROGRESS_ISSUE@ && unready_note_text(
            epics,
            issues,
        ) == UNREADY_ISSUE@,
        epics.len() == 0 && issues.len() > 1 ==> read_subject_text(epics, issues) == READ_ISSUES@
            && progress_subject_text(epics, issues) == PROGRESS_ISSUES@ && unready_note_text(
            epics,
            issues,
        ) == UNREADY_ISSUE@,
        epics.len() == 1 ==> progress_subject_text(epics, issues) == PROGRESS_EPIC@
            && unready_note_text(epics, issues) == UNREADY_EPIC@,
        epics.len() > 1 ==> progress_subject_text(epics, issues) == PROGRESS_EPICS@
            && unready_note_text(epics, issues) == UNREADY_EPICS@,
        epics.len() == 1 && issues.len() == 0 ==> read_subject_text(epics, issues) == READ_EPIC@,
        epics.len() > 1 && issues.len() == 0 ==> read_subject_text(epics, issues) == READ_EPICS@,
        epics.len() == 1 && issues.len() == 1 ==> read_subject_text(epics, issues) == READ_EPIC@
            + ", plus the standalone issue "@ + display_ref_text(issues[0])
            + " and ALL of its comments"@,
        epics.len() > 1 && issues.len() == 1 ==> read_subject_text(epics, issues) == READ_EPICS@
            + ", plus the standalone issue "@ + display_ref_text(issues[0])
            + " and ALL of its comments"@,
        epics.len() == 1 && issues.len() > 1 ==> read_subject_text(epics, issues) == READ_EPIC@
            + ", plus the standalone issues "@ + join_refs_text(issues)
            + " and ALL of their comments"@,
        epics.len() > 1 && issues.len() > 1 ==> read_subject_text(epics, issues) == READ_EPICS@
            + ", plus the standalone issues "@ + join_refs_text(issues)
            + " and ALL of their comments"@,
        worktree_sentence_text(epics, issues) == (if epics.len() == 1 && issues.len() == 0 {
            WORKTREE_OF_EPIC@
        } else {
            WORKTREE_OF_RUN@
        }),
{
    if issues.len() == 1 {
        assert(issues.map_values(|r: Seq<char>| display_ref_text(r))[0] == display_ref_text(
            issues[0],
        ));
    }
}

/// A run of issues alone works them in the order of the list and names issue numbers; one
/// with an epic works in the order of the epic and names the epic too.
pub proof fn law_the_order_follows_the_run(is_list: bool)
    ensures
        is_list ==> contains(order_clause_text(is_list), ORDER_OF_LIST@) && refs_word_text(is_list)
            == "issue"@,
        !is_list ==> contains(order_clause_text(is_list), ORDER_OF_EPIC@) && refs_word_text(is_list)
            == "issue/epic"@,
        contains(pr_reminder_text(is_list), refs_word_text(is_list)),
{
    let listed = if is_list {
        ORDER_OF_LIST@
    } else {
        ORDER_OF_EPIC@
    };
    let o1 = crate::prompt_text::ORDER_1@;
    let o2 = crate::prompt_text::ORDER_2@;
    let o3 = crate::prompt_text::ORDER_3@;
    let o4 = crate::prompt_text::ORDER_4@;
    let tag = crate::prompt_text::ORDER_ALERT_TAG@;
    lemma_five(o1, listed, o2, tag, o3);
    lemma_three(o1 + listed + o2 + tag + o3, tag, o4);
    lemma_stands_through(order_clause_text(is_list), o1 + listed + o2 + tag + o3, listed);
    lemma_stands(
        crate::prompt_text::PR_REMINDER_1@,
        refs_word_text(is_list),
        crate::prompt_text::PR_REMINDER_2@,
    );
}

} // verus!
