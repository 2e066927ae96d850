//! What the journal lists, deletes, marks and archives, line by line.

use vstd::prelude::*;
use crate::harvest::{
    archived_lines, boundary, boundary_from, copies, kept_lines, known, region, renew, renewed,
    seen, unrendered_at, written,
};
use crate::journal::{
    is_entry_with, is_fresh, is_no_entry_with, journal_file_text, last_marker, lemma_last_marker,
    line_model, marker_count, not_blank, opaque, previous_marker, rows, rows_upto, status_at,
    EntryModel, HarvestMarker, JournalCategory, JournalEntry, JournalEntryStatus, JournalText,
    LineModel, RowModel,
};
use crate::parts::{
    part_text, parts_of, plan_of, planned_for, planned_upto, split_count, splits, PlannedModel,
};
use crate::paths::normalized_project;
use crate::text::is_white_space;
use crate::text_laws::law_what_is_trimmed;
use crate::words::{lines, trim, views};

verus! {

// ---------------------------------------------------------------------------
// What a line is
// ---------------------------------------------------------------------------

/// A line with a `kind` that spells a marker is a marker, one without that spells an entry
/// is an entry, with its project in the normal spelling; any other line, a text that is no
/// JSON among them, is of no known shape. Whatever it is, its exact text is kept.
pub proof fn law_what_a_line_is(
    raw: Seq<char>,
    has_kind: Option<bool>,
    marker: Option<(HarvestMarker, String)>,
    entry: Option<JournalEntry>,
)
    ensures
        ({
            let line = line_model(raw, has_kind, marker, entry);
            &&& line.raw() == raw
            &&& line is Marker <==> has_kind == Some(true) && marker is Some
            &&& line is Entry <==> has_kind == Some(false) && entry is Some
            &&& line is Marker ==> line == LineModel::Marker(raw, (marker->0).1@)
            &&& line matches LineModel::Entry(e, _) ==> e.ts == (entry->0).ts@ && e.text == (
            entry->0).text@ && e.category == (entry->0).category
            &&& line matches LineModel::Entry(e, _) ==> match ((entry->0).agent, e.agent) {
                (Some(a), Some(b)) => b == a@,
                (None, None) => true,
                _ => false,
            }
            &&& line matches LineModel::Entry(e, _) ==> match ((entry->0).project, e.project) {
                (Some(a), Some(b)) => b == normalized_project(a@),
                (None, None) => true,
                _ => false,
            }
        }),
{
}

/// The five categories are spelled apart.
pub proof fn law_categories_are_spelled_apart(a: JournalCategory, b: JournalCategory)
    ensures
        a.wire_text() == b.wire_text() ==> a == b,
{
    reveal_strlit("BOTTLENECK");
    reveal_strlit("ERROR");
    reveal_strlit("IMPROVEMENT");
    reveal_strlit("SKILL");
    reveal_strlit("CONCERN");
    assert("ERROR"@[0] == 'E' && "SKILL"@[0] == 'S');
    assert("BOTTLENECK"@.len() == 10 && "IMPROVEMENT"@.len() == 11);
    assert("ERROR"@.len() == 5 && "SKILL"@.len() == 5 && "CONCERN"@.len() == 7);
}

// ---------------------------------------------------------------------------
// What is listed
// ---------------------------------------------------------------------------

/// A marker stands at `j`, behind `i`.
pub open spec fn marker_behind(all: Seq<LineModel>, i: int, j: int) -> bool {
    i < j < all.len() && all[j] is Marker
}

/// How the markers of a text count.
proof fn lemma_counts(all: Seq<LineModel>)
    ensures
        marker_count(all) == 0 <==> forall|j: int|
            0 <= j < all.len() ==> !((#[trigger] all[j]) is Marker),
        marker_count(all) >= 1 ==> exists|j: int| 0 <= j < all.len() && (#[trigger] all[j]) is Marker,
        marker_count(all) >= 2 <==> exists|j: int, k: int|
            0 <= j < k < all.len() && (#[trigger] all[j]) is Marker && (#[trigger] all[k]) is Marker,
    decreases all.len(),
{
    if all.len() > 0 {
        let init = all.drop_last();
        let last = all.len() - 1;
        lemma_counts(init);
        assert(all.last() == all[last]);
        assert forall|j: int| 0 <= j < init.len() implies #[trigger] init[j] == all[j] by {}
        if marker_count(init) >= 1 {
            let j = choose|j: int| 0 <= j < init.len() && (#[trigger] init[j]) is Marker;
            assert(all[j] is Marker);
            if all.last() is Marker {
                assert(all[j] is Marker && all[last] is Marker);
            }
        }
        if marker_count(init) >= 2 {
            let (j, k) = choose|j: int, k: int|
                0 <= j < k < init.len() && (#[trigger] init[j]) is Marker && (
                #[trigger] init[k]) is Marker;
            assert(all[j] is Marker && all[k] is Marker);
        }
        if marker_count(all) == 0 {
            assert forall|j: int| 0 <= j < all.len() implies !((#[trigger] all[j]) is Marker) by {
                if j < last {
                    assert(!(init[j] is Marker));
                }
            }
        }
        if forall|j: int| 0 <= j < all.len() ==> !((#[trigger] all[j]) is Marker) {
            assert(!(all[last] is Marker));
            assert forall|j: int| 0 <= j < init.len() implies !((#[trigger] init[j]) is Marker) by {
                assert(!(all[j] is Marker));
            }
        }
        if exists|j: int, k: int|
            0 <= j < k < all.len() && (#[trigger] all[j]) is Marker && (
            #[trigger] all[k]) is Marker {
            let (j, k) = choose|j: int, k: int|
                0 <= j < k < all.len() && (#[trigger] all[j]) is Marker && (
                #[trigger] all[k]) is Marker;
            assert(init[j] is Marker);
            assert(marker_count(init) >= 1);
            if k < last {
                assert(init[k] is Marker);
                assert(marker_count(init) >= 2);
            }
        }
    }
}

/// An entry is unconsumed as long as no marker stands behind it, consumed once one does, and
/// archived once two do.
pub proof fn law_the_status_of_an_entry(all: Seq<LineModel>, i: int)
    requires
        0 <= i < all.len(),
    ensures
        status_at(all, i) == JournalEntryStatus::Unconsumed <==> forall|j: int|
            !#[trigger] marker_behind(all, i, j),
        status_at(all, i) == JournalEntryStatus::Archived <==> exists|j: int, k: int|
            j < k && #[trigger] marker_behind(all, i, j) && #[trigger] marker_behind(all, i, k),
        status_at(all, i) == JournalEntryStatus::Consumed <==> (exists|j: int| #[trigger]
            marker_behind(all, i, j)) && forall|j: int, k: int| #[trigger]
            marker_behind(all, i, j) && #[trigger] marker_behind(all, i, k) ==> j == k,
{
    let behind = all.skip(i + 1);
    lemma_counts(behind);
    assert forall|j: int| 0 <= j < behind.len() implies #[trigger] behind[j] == all[i + 1 + j] by {}
    if marker_count(behind) >= 1 {
        let j = choose|j: int| 0 <= j < behind.len() && (#[trigger] behind[j]) is Marker;
        assert(marker_behind(all, i, i + 1 + j));
    }
    if marker_count(behind) >= 2 {
        let (j, k) = choose|j: int, k: int|
            0 <= j < k < behind.len() && (#[trigger] behind[j]) is Marker && (
            #[trigger] behind[k]) is Marker;
        assert(marker_behind(all, i, i + 1 + j) && marker_behind(all, i, i + 1 + k));
    }
    assert forall|j: int| #[trigger] marker_behind(all, i, j) implies marker_count(behind)
        >= 1 by {
        assert(behind[j - i - 1] is Marker);
    }
    assert forall|j: int, k: int|
        j < k && #[trigger] marker_behind(all, i, j) && #[trigger] marker_behind(
            all,
            i,
            k,
        ) implies marker_count(behind) >= 2 by {
        assert(behind[j - i - 1] is Marker && behind[k - i - 1] is Marker);
    }
    if marker_count(behind) == 1 {
        assert forall|j: int, k: int| #[trigger]
            marker_behind(all, i, j) && #[trigger] marker_behind(all, i, k) implies j == k by {
            if j < k {
                assert(marker_behind(all, i, j) && marker_behind(all, i, k));
            } else if k < j {
                assert(marker_behind(all, i, k) && marker_behind(all, i, j));
            }
        }
    }
}

proof fn lemma_rows_upto(all: Seq<LineModel>, n: int)
    requires
        0 <= n <= all.len(),
    ensures
        forall|i: int|
            0 <= i < n && (#[trigger] all[i]) is Entry ==> rows_upto(all, n).contains(
                row_of(all, i),
            ),
        forall|k: int|
            0 <= k < rows_upto(all, n).len() ==> is_row_of_line(
                all,
                n,
                #[trigger] rows_upto(all, n)[k],
            ),
    decreases n,
{
    let listed = rows_upto(all, n);
    if n > 0 {
        let before = rows_upto(all, n - 1);
        lemma_rows_upto(all, n - 1);
        assert forall|i: int| 0 <= i < n && (#[trigger] all[i]) is Entry implies listed.contains(
            row_of(all, i),
        ) by {
            if i < n - 1 {
                assert(before.contains(row_of(all, i)));
                let k = choose|k: int| 0 <= k < before.len() && before[k] == row_of(all, i);
                assert(listed[k] == row_of(all, i));
            } else {
                assert(listed[before.len() as int] == row_of(all, i));
            }
        }
        assert forall|k: int| 0 <= k < listed.len() implies is_row_of_line(
            all,
            n,
            #[trigger] listed[k],
        ) by {
            if k < before.len() {
                assert(listed[k] == before[k]);
                assert(is_row_of_line(all, n - 1, before[k]));
                let i = choose|i: int|
                    0 <= i < n - 1 && (#[trigger] all[i]) is Entry && before[k] == row_of(all, i);
                assert(all[i] is Entry);
            } else {
                assert(all[n - 1] is Entry);
            }
        }
    }
}

/// The row of the entry at `i`.
pub open spec fn row_of(all: Seq<LineModel>, i: int) -> RowModel {
    RowModel {
        entry: all[i]->Entry_0,
        status: status_at(all, i),
        raw: all[i]->Entry_1,
    }
}

/// The row is that of an entry among the first `n` lines.
pub open spec fn is_row_of_line(all: Seq<LineModel>, n: int, row: RowModel) -> bool {
    exists|i: int| 0 <= i < n && (#[trigger] all[i]) is Entry && row == row_of(all, i)
}

/// Every entry of the journal is listed with what it says, its exact text and its status,
/// wherever it stands; nothing else is listed.
pub proof fn law_every_entry_is_listed(all: Seq<LineModel>)
    ensures
        forall|i: int|
            0 <= i < all.len() && (#[trigger] all[i]) is Entry ==> rows(all).contains(
                row_of(all, i),
            ),
        forall|k: int|
            0 <= k < rows(all).len() ==> is_row_of_line(
                all,
                all.len() as int,
                #[trigger] rows(all)[k],
            ),
{
    lemma_rows_upto(all, all.len() as int);
}

/// The unconsumed entries are those that no marker stands behind.
pub proof fn law_what_is_unconsumed(all: Seq<LineModel>, i: int)
    requires
        0 <= i < all.len(),
        all[i] is Entry,
    ensures
        (forall|j: int| !#[trigger] marker_behind(all, i, j)) ==> rows(all).filter(
            is_fresh(),
        ).contains(row_of(all, i)),
        forall|k: int|
            0 <= k < rows(all).filter(is_fresh()).len() ==> (#[trigger] rows(all).filter(
                is_fresh(),
            )[k]).status == JournalEntryStatus::Unconsumed,
{
    law_every_entry_is_listed(all);
    law_the_status_of_an_entry(all, i);
    let listed = rows(all);
    assert(listed.contains(row_of(all, i)));
    let k = choose|k: int| 0 <= k < listed.len() && listed[k] == row_of(all, i);
    if forall|j: int| !#[trigger] marker_behind(all, i, j) {
        listed.lemma_filter_contains(is_fresh(), k);
    }
    assert forall|k: int| 0 <= k < listed.filter(is_fresh()).len() implies (
    #[trigger] listed.filter(is_fresh())[k]).status == JournalEntryStatus::Unconsumed by {
        listed.lemma_filter_pred(is_fresh(), k);
    }
}

/// A delete takes every entry with exactly that text and nothing else: an entry with another
/// text, a marker and a line of no known shape stay, also where they read the same.
pub proof fn law_what_a_delete_takes(all: Seq<LineModel>, raw: Seq<char>)
    ensures
        forall|i: int|
            0 <= i < all.len() && !((#[trigger] all[i]) is Entry && all[i].raw() == raw)
                ==> all.filter(is_no_entry_with(raw)).contains(all[i]),
        forall|k: int|
            0 <= k < all.filter(is_no_entry_with(raw)).len() ==> !((#[trigger] all.filter(
                is_no_entry_with(raw),
            )[k]) is Entry && all.filter(is_no_entry_with(raw))[k].raw() == raw),
        forall|k: int|
            0 <= k < all.filter(is_entry_with(raw)).len() ==> (#[trigger] all.filter(
                is_entry_with(raw),
            )[k]) is Entry && all.filter(is_entry_with(raw))[k].raw() == raw,
        forall|i: int|
            0 <= i < all.len() && (#[trigger] all[i]) is Entry && all[i].raw() == raw
                ==> all.filter(is_entry_with(raw)).contains(all[i]),
{
    let keep = is_no_entry_with(raw);
    let take = is_entry_with(raw);
    assert forall|i: int|
        0 <= i < all.len() && !((#[trigger] all[i]) is Entry && all[i].raw() == raw)
        implies all.filter(keep).contains(all[i]) by {
        all.lemma_filter_contains(keep, i);
    }
    assert forall|k: int| 0 <= k < all.filter(keep).len() implies !((#[trigger] all.filter(
        keep,
    )[k]) is Entry && all.filter(keep)[k].raw() == raw) by {
        all.lemma_filter_pred(keep, k);
    }
    assert forall|k: int| 0 <= k < all.filter(take).len() implies (#[trigger] all.filter(
        take,
    )[k]) is Entry && all.filter(take)[k].raw() == raw by {
        all.lemma_filter_pred(take, k);
    }
    assert forall|i: int|
        0 <= i < all.len() && (#[trigger] all[i]) is Entry && all[i].raw() == raw
        implies all.filter(take).contains(all[i]) by {
        all.lemma_filter_contains(take, i);
    }
}

/// The lines of no known shape are counted, all of them and nothing else.
pub proof fn law_what_counts_as_unknown(all: Seq<LineModel>, line: LineModel)
    ensures
        all.push(line).filter(opaque()).len() == all.filter(opaque()).len() + if line is Opaque {
            1int
        } else {
            0int
        },
        Seq::<LineModel>::empty().filter(opaque()).len() == 0,
{
    reveal(Seq::filter);
    assert(all.push(line).drop_last() =~= all);
}

// ---------------------------------------------------------------------------
// What a harvest marks and archives
// ---------------------------------------------------------------------------

/// A rewrite keeps every entry and every line of no known shape exactly as it stands; a
/// marker is written anew.
pub proof fn law_a_rewrite_keeps_lines_exactly(line: LineModel)
    ensures
        match line {
            LineModel::Entry(entry, raw) => written(line) == raw && renewed(line) == line,
            LineModel::Opaque(raw) => written(line) == raw && renewed(line) == line,
            LineModel::Marker(_, anew) => written(line) == anew && renewed(line)
                == LineModel::Marker(anew, anew),
        },
{
}

/// A harvest consumes from the last marker on, or from the start where there is none.
pub proof fn law_where_a_harvest_starts(all: Seq<LineModel>)
    ensures
        0 <= region(all) <= all.len(),
        region(all) == 0 || all[region(all)] is Marker,
        forall|j: int| region(all) < j < all.len() ==> !((#[trigger] all[j]) is Marker),
        (forall|j: int| 0 <= j < all.len() ==> !((#[trigger] all[j]) is Marker)) ==> region(all)
            == 0,
{
    lemma_last_marker(all);
}

/// An entry behind the last marker whose text was not rendered is never consumed: the new
/// marker goes before it.
pub proof fn law_what_was_not_rendered_is_not_consumed(
    all: Seq<LineModel>,
    rendered: Seq<Seq<char>>,
    i: int,
)
    requires
        region(all) <= i < all.len(),
        all[i] is Entry,
        forall|k: int| 0 <= k < rendered.len() ==> #[trigger] rendered[k] != all[i].raw(),
    ensures
        boundary(all, rendered) <= i,
{
    law_where_a_harvest_starts(all);
    lemma_no_copies(rendered, all[i].raw());
    assert(unrendered_at(all, rendered, region(all), i));
    lemma_boundary_stops(all, rendered, region(all), region(all), i);
}

/// Entries behind the last marker that were all rendered, each of its own text, are
/// consumed: the new marker goes behind them.
pub proof fn law_what_was_rendered_is_consumed(
    all: Seq<LineModel>,
    rendered: Seq<Seq<char>>,
    n: int,
)
    requires
        region(all) <= n <= all.len(),
        forall|i: int|
            region(all) <= i < n && (#[trigger] all[i]) is Entry ==> rendered.contains(
                all[i].raw(),
            ),
        forall|i: int, j: int|
            region(all) <= i < j < n && (#[trigger] all[i]) is Entry && (
            #[trigger] all[j]) is Entry ==> all[i].raw() != all[j].raw(),
    ensures
        boundary(all, rendered) >= n,
{
    let a = region(all);
    law_where_a_harvest_starts(all);
    assert forall|i: int| a <= i < n implies !#[trigger] unrendered_at(all, rendered, a, i) by {
        if all[i] is Entry {
            let raw = all[i].raw();
            assert(rendered.contains(raw));
            lemma_some_copies(rendered, raw);
            assert forall|j: int| a <= j < i implies !((#[trigger] all[j]) is Entry && all[j].raw()
                == raw) by {
                if all[j] is Entry {
                    assert(all[j].raw() != all[i].raw());
                }
            }
            lemma_none_seen(all, a, i, raw);
        }
    }
    lemma_boundary_goes_on(all, rendered, a, a, n);
}

proof fn lemma_no_copies(rendered: Seq<Seq<char>>, raw: Seq<char>)
    requires
        forall|k: int| 0 <= k < rendered.len() ==> #[trigger] rendered[k] != raw,
    ensures
        copies(rendered, raw) == 0,
    decreases rendered.len(),
{
    if rendered.len() > 0 {
        let init = rendered.drop_last();
        assert forall|k: int| 0 <= k < init.len() implies #[trigger] init[k] != raw by {
            assert(init[k] == rendered[k]);
        }
        assert(rendered[rendered.len() - 1] != raw);
        lemma_no_copies(init, raw);
    }
}

proof fn lemma_some_copies(rendered: Seq<Seq<char>>, raw: Seq<char>)
    requires
        rendered.contains(raw),
    ensures
        copies(rendered, raw) >= 1,
    decreases rendered.len(),
{
    let k = choose|k: int| 0 <= k < rendered.len() && rendered[k] == raw;
    if rendered.last() != raw {
        assert(rendered.drop_last()[k] == raw);
        lemma_some_copies(rendered.drop_last(), raw);
    }
}

proof fn lemma_none_seen(all: Seq<LineModel>, from: int, to: int, raw: Seq<char>)
    requires
        forall|j: int| from <= j < to ==> !((#[trigger] all[j]) is Entry && all[j].raw() == raw),
    ensures
        seen(all, from, to, raw) == 0,
    decreases to - from,
{
    if to > from {
        lemma_none_seen(all, from, to - 1, raw);
        assert(!(all[to - 1] is Entry && all[to - 1].raw() == raw));
    }
}

proof fn lemma_boundary_stops(
    all: Seq<LineModel>,
    rendered: Seq<Seq<char>>,
    from: int,
    i: int,
    at: int,
)
    requires
        i <= at < all.len(),
        unrendered_at(all, rendered, from, at),
    ensures
        boundary_from(all, rendered, from, i) <= at,
    decreases at - i,
{
    if i < at && !unrendered_at(all, rendered, from, i) {
        lemma_boundary_stops(all, rendered, from, i + 1, at);
    }
}

proof fn lemma_boundary_goes_on(
    all: Seq<LineModel>,
    rendered: Seq<Seq<char>>,
    from: int,
    i: int,
    n: int,
)
    requires
        0 <= i <= n <= all.len(),
        forall|j: int| i <= j < n ==> !#[trigger] unrendered_at(all, rendered, from, j),
    ensures
        boundary_from(all, rendered, from, i) >= n,
    decreases n - i,
{
    if i < n {
        assert(!unrendered_at(all, rendered, from, i));
        lemma_boundary_goes_on(all, rendered, from, i + 1, n);
    } else {
        crate::harvest::lemma_boundary(all, rendered, from, i);
    }
}

/// The archive takes every entry and marker before the last marker, and nothing else; a line
/// of no known shape stays in the journal.
pub proof fn law_what_is_archived(
    all: Seq<LineModel>,
    rendered: Seq<Seq<char>>,
    marker: Seq<char>,
    i: int,
)
    requires
        0 <= i < region(all),
    ensures
        !(all[i] is Opaque) ==> archived_lines(all).contains(renewed(all[i])),
        all[i] is Opaque ==> kept_lines(all, rendered, marker).contains(all[i]),
        archived_lines(all).len() <= region(all),
{
    law_where_a_harvest_starts(all);
    let a = region(all);
    let head = all.take(a);
    assert(head[i] == all[i]);
    head.lemma_filter_len(known());
    if !(all[i] is Opaque) {
        head.lemma_filter_contains(known(), i);
        let moved = head.filter(known());
        let k = choose|k: int| 0 <= k < moved.len() && moved[k] == all[i];
        assert(renew(moved)[k] == renewed(all[i]));
    } else {
        head.lemma_filter_contains(opaque(), i);
        let left = head.filter(opaque());
        let k = choose|k: int| 0 <= k < left.len() && left[k] == all[i];
        assert(kept_lines(all, rendered, marker)[k] == left[k]);
    }
}

// ---------------------------------------------------------------------------
// Parts
// ---------------------------------------------------------------------------

/// An entry is split exactly if it is longer than the budget and fits into some number of
/// parts; part `k` of `n` says so, and its body is the next stretch of the text.
pub proof fn law_what_a_part_says(entry: EntryModel, budget: nat, k: int)
    requires
        parts_of(entry, budget) is Some,
        0 <= k < parts_of(entry, budget)->0.len(),
    ensures
        ({
            let parts = parts_of(entry, budget)->0;
            let n = parts.len();
            let chunk = (plan_of(entry.text.len(), budget)->0).0 as int;
            let lead = "[part "@ + crate::decimal::decimal((k + 1) as nat) + "/"@
                + crate::decimal::decimal(n) + "] "@;
            let body = parts[k].text.skip(lead.len() as int);
            &&& entry.text.len() > budget
            &&& parts[k].text == lead + body
            &&& (k + 1) * chunk <= entry.text.len() ==> body == entry.text.subrange(
                k * chunk,
                (k + 1) * chunk,
            )
            &&& (k + 1) * chunk > entry.text.len() ==> body == entry.text.skip(k * chunk)
        }),
{
    let (chunk, n) = plan_of(entry.text.len(), budget)->0;
    let text = part_text(entry.text, chunk, n, k);
    let lead = "[part "@ + crate::decimal::decimal((k + 1) as nat) + "/"@ + crate::decimal::decimal(
        n,
    ) + "] "@;
    assert(parts_of(entry, budget)->0[k].text == text);
    let body = crate::parts::part_body(entry.text, chunk, k);
    assert(text == lead + body);
    assert(text.skip(lead.len() as int) =~= body);
    if (k + 1) * chunk > entry.text.len() {
        assert(body =~= entry.text.skip(k * chunk));
    }
}

/// Every entry behind the last marker that is over the budget and can be split is split,
/// wherever it stands.
pub proof fn law_every_long_fresh_entry_is_split(
    all: Seq<LineModel>,
    budget: nat,
    i: int,
    parts: Seq<EntryModel>,
)
    requires
        0 <= i < all.len(),
        all[i] is Entry,
        forall|j: int| !#[trigger] marker_behind(all, i, j),
        parts_of(all[i]->Entry_0, budget) == Some(parts),
    ensures
        planned_for(all, budget, i).len() == parts.len(),
        forall|k: int|
            0 <= k < parts.len() ==> #[trigger] planned_for(all, budget, i)[k]
                == PlannedModel::Part(parts[k]),
{
    lemma_last_marker(all);
    if last_marker(all) is Some {
        let last = last_marker(all)->0;
        if i < last {
            assert(marker_behind(all, i, last));
        }
    }
}

/// A line is skipped exactly if it holds white space alone.
pub proof fn law_which_lines_are_blank(line: Seq<char>)
    ensures
        not_blank()(line) <==> exists|i: int|
            0 <= i < line.len() && !is_white_space(#[trigger] line[i]),
{
    let at = law_what_is_trimmed(line);
    if not_blank()(line) {
        assert(trim(line)[0] == line[at.0]);
    }
    if exists|i: int| 0 <= i < line.len() && !is_white_space(#[trigger] line[i]) {
        let i = choose|i: int| 0 <= i < line.len() && !is_white_space(#[trigger] line[i]);
        assert(at.0 <= i < at.1);
    }
}

/// The journal file is in the journal directory, with one separator between the two.
pub proof fn law_where_the_journal_is(dir: Seq<char>, separator: char)
    ensures
        dir.len() > 0 && dir.last() != separator ==> journal_file_text(dir, separator)
            == normalized_project(dir + seq![separator] + "journal.jsonl"@),
        journal_file_text(dir.push(separator), separator) == normalized_project(
            dir + seq![separator] + "journal.jsonl"@,
        ),
        journal_file_text(Seq::empty(), separator) == normalized_project("journal.jsonl"@),
{
    assert(dir.push(separator) =~= dir + seq![separator]);
    assert(Seq::<char>::empty() + "journal.jsonl"@ =~= "journal.jsonl"@);
}

/// One more line is split or carried on its own: the plan of the lines before it stays.
pub proof fn law_a_split_goes_line_by_line(all: Seq<LineModel>, budget: nat, n: int)
    requires
        0 <= n < all.len(),
    ensures
        planned_upto(all, budget, 0).len() == 0,
        planned_upto(all, budget, n + 1) == planned_upto(all, budget, n) + planned_for(
            all,
            budget,
            n,
        ),
        split_count(all, budget, 0) == 0,
        planned_for(all, budget, n) != seq![PlannedModel::Carried(all[n].raw())] ==> split_count(
            all,
            budget,
            n + 1,
        ) == split_count(all, budget, n) + 1,
        !splits(all, budget, n) ==> split_count(all, budget, n + 1) == split_count(all, budget, n),
{
}

/// Where the last two markers are: the last one has none behind it, and the one before it
/// none in between.
pub proof fn law_where_the_last_two_markers_are(all: Seq<LineModel>)
    ensures
        last_marker(all) matches Some(last) ==> 0 <= last < all.len() && all[last] is Marker
            && forall|j: int| last < j < all.len() ==> !((#[trigger] all[j]) is Marker),
        last_marker(all) is None ==> previous_marker(all) is None && forall|j: int|
            0 <= j < all.len() ==> !((#[trigger] all[j]) is Marker),
        previous_marker(all) matches Some(prev) ==> last_marker(all) matches Some(last) && 0 <= prev
            < last && all[prev] is Marker && forall|j: int|
            prev < j < last ==> !((#[trigger] all[j]) is Marker),
        last_marker(all) matches Some(last) ==> (previous_marker(all) is None ==> forall|j: int|
            0 <= j < last ==> !((#[trigger] all[j]) is Marker)),
{
    lemma_last_marker(all);
    if last_marker(all) is Some {
        let last = last_marker(all)->0;
        let head = all.take(last);
        lemma_last_marker(head);
        assert forall|j: int| 0 <= j < last implies #[trigger] all[j] == head[j] by {}
    }
}

/// A file is read as its lines that are not blank, in order, and as having an open end
/// exactly if its last character is no line feed.
pub proof fn law_what_is_read_of_a_file(read: JournalText, content: Seq<char>)
    requires
        read.is_read_from(content),
    ensures
        read.open_end <==> content.len() > 0 && content.last() != '\n',
        forall|i: int|
            0 <= i < lines(content).len() && trim(#[trigger] lines(content)[i]).len() > 0
                ==> views(read.lines@).contains(lines(content)[i]),
        forall|k: int|
            0 <= k < views(read.lines@).len() ==> lines(content).contains(
                #[trigger] views(read.lines@)[k],
            ) && trim(views(read.lines@)[k]).len() > 0,
{
    let all = lines(content);
    let keep = not_blank();
    let kept = all.filter(keep);
    assert forall|i: int| 0 <= i < all.len() && trim(#[trigger] all[i]).len() > 0 implies views(
        read.lines@,
    ).contains(all[i]) by {
        all.lemma_filter_contains(keep, i);
    }
    assert forall|k: int| 0 <= k < kept.len() implies all.contains(#[trigger] kept[k]) && trim(
        kept[k],
    ).len() > 0 by {
        assert(kept.contains(kept[k]));
        all.lemma_filter_contains_rev(keep, kept[k]);
        all.lemma_filter_pred(keep, k);
    }
}

/// Where every line of the journal stands after a harvest that rewrites it: first the lines
/// of no known shape from before the last marker, then everything from the last marker up
/// to the boundary, the new marker, and the rest, all in their order.
pub proof fn law_where_every_line_stays(
    all: Seq<LineModel>,
    rendered: Seq<Seq<char>>,
    marker: Seq<char>,
)
    ensures
        ({
            let kept = kept_lines(all, rendered, marker);
            let a = region(all);
            let b = boundary(all, rendered);
            let first = all.take(a).filter(opaque());
            let n = first.len() as int;
            &&& a <= b <= all.len()
            &&& kept.len() == n + (all.len() - a) + 1
            &&& kept.take(n) == first
            &&& forall|i: int| a <= i < b ==> kept[n + i - a] == renewed(#[trigger] all[i])
            &&& kept[n + b - a] == LineModel::Marker(marker, marker)
            &&& forall|i: int|
                b <= i < all.len() ==> kept[n + i - a + 1] == renewed(#[trigger] all[i])
        }),
{
    let a = region(all);
    let b = boundary(all, rendered);
    law_where_a_harvest_starts(all);
    crate::harvest::lemma_boundary(all, rendered, a, a);
    let first = all.take(a).filter(opaque());
    let n = first.len() as int;
    let kept = kept_lines(all, rendered, marker);
    assert(kept.take(n) =~= first);
    assert forall|i: int| a <= i < b implies kept[n + i - a] == renewed(#[trigger] all[i]) by {
        assert(all.subrange(a, b)[i - a] == all[i]);
    }
    assert forall|i: int| b <= i < all.len() implies kept[n + i - a + 1] == renewed(
        #[trigger] all[i],
    ) by {
        assert(all.skip(b)[i - b] == all[i]);
    }
}

/// The archive takes its lines in their order: those of a longer beginning of the journal
/// follow those of a shorter one.
pub proof fn law_the_archive_keeps_the_order(all: Seq<LineModel>, n: int)
    requires
        0 <= n < region(all),
    ensures
        ({
            let before = all.take(n).filter(known());
            let k = before.len() as int;
            &&& archived_lines(all).take(k) == renew(before)
            &&& !(all[n] is Opaque) ==> archived_lines(all)[k] == renewed(all[n])
        }),
{
    law_where_a_harvest_starts(all);
    let a = region(all);
    let before = all.take(n).filter(known());
    let k = before.len() as int;
    let head = all.take(a);
    let rest = head.skip(n);
    assert(head =~= all.take(n) + rest);
    Seq::filter_distributes_over_add(all.take(n), rest, known());
    let moved = head.filter(known());
    assert(moved == before + rest.filter(known()));
    assert(renew(moved).take(k) =~= renew(before));
    if !(all[n] is Opaque) {
        let one = seq![rest[0]];
        assert(rest =~= one + rest.skip(1));
        Seq::filter_distributes_over_add(one, rest.skip(1), known());
        reveal(Seq::filter);
        assert(one.drop_last() =~= Seq::empty());
        assert(one.filter(known()) =~= one);
        assert(moved[k] == rest[0]);
    }
}

/// A harvest that moves nothing to the archive and marks at the end may append its marker
/// instead of rewriting the journal: both leave the same lines.
pub proof fn law_appending_a_marker_is_enough(
    all: Seq<LineModel>,
    rendered: Seq<Seq<char>>,
    marker: Seq<char>,
)
    requires
        archived_lines(all).len() == 0,
        boundary(all, rendered) == all.len(),
    ensures
        kept_lines(all, rendered, marker) == renew(all).push(LineModel::Marker(marker, marker)),
{
    law_where_a_harvest_starts(all);
    law_where_every_line_stays(all, rendered, marker);
    let a = region(all);
    let head = all.take(a);
    assert(renew(head.filter(known())).len() == head.filter(known()).len());
    assert forall|i: int| 0 <= i < head.len() implies opaque()(#[trigger] head[i]) by {
        if !opaque()(head[i]) {
            head.lemma_filter_contains(known(), i);
        }
    }
    lemma_all_picked(head, opaque());
    let kept = kept_lines(all, rendered, marker);
    let plain = renew(all).push(LineModel::Marker(marker, marker));
    assert(kept.len() == plain.len());
    assert forall|i: int| 0 <= i < kept.len() implies #[trigger] kept[i] == plain[i] by {
        if i < a {
            assert(kept.take(a)[i] == kept[i]);
            assert(head[i] == all[i]);
            assert(opaque()(head[i]));
        } else if i < all.len() {
            assert(kept[a + i - a] == renewed(all[i]));
        }
    }
    assert(kept =~= plain);
}

proof fn lemma_all_picked(s: Seq<LineModel>, pick: spec_fn(LineModel) -> bool)
    requires
        forall|i: int| 0 <= i < s.len() ==> pick(#[trigger] s[i]),
    ensures
        s.filter(pick) == s,
    decreases s.len(),
{
    reveal(Seq::filter);
    if s.len() > 0 {
        let init = s.drop_last();
        assert forall|i: int| 0 <= i < init.len() implies pick(#[trigger] init[i]) by {
            assert(init[i] == s[i]);
        }
        lemma_all_picked(init, pick);
        assert(pick(s[s.len() - 1]));
        assert(s =~= init.push(s.last()));
    } else {
        assert(s.filter(pick) =~= s);
    }
}

} // verus!
