//! The commit of a harvest: what it consumed is marked, what was consumed before is
//! archived.

use vstd::prelude::*;
use crate::clock::{calendar_date, is_calendar_date};
use crate::journal::{
    appended_line, appended_text, last_marker, lemma_last_marker, marker_before, models, opaque,
    push_line, text_of, JournalLine, JournalStore, LineModel,
};
use crate::text::same;
use crate::words::views;

verus! {

/// The line as it is written: a marker anew, anything else exactly.
pub open spec fn written(line: LineModel) -> Seq<char> {
    match line {
        LineModel::Marker(_, rewritten) => rewritten,
        _ => line.raw(),
    }
}

/// The line that a rewrite leaves.
pub open spec fn renewed(line: LineModel) -> LineModel {
    match line {
        LineModel::Marker(_, rewritten) => LineModel::Marker(rewritten, rewritten),
        _ => line,
    }
}

/// The lines that a rewrite leaves.
pub open spec fn renew(all: Seq<LineModel>) -> Seq<LineModel> {
    all.map_values(|l: LineModel| renewed(l))
}

/// The texts of the lines as they are written.
pub open spec fn texts(all: Seq<LineModel>) -> Seq<Seq<char>> {
    all.map_values(|l: LineModel| written(l))
}

/// The lines of a known shape.
pub open spec fn known() -> spec_fn(LineModel) -> bool {
    |l: LineModel| !(l is Opaque)
}

/// Where the region that a harvest consumes from starts: at the last marker.
pub open spec fn region(all: Seq<LineModel>) -> int {
    match last_marker(all) {
        Some(last) => last,
        None => 0,
    }
}

/// How many entries with this text stand in `from..to`.
pub open spec fn seen(all: Seq<LineModel>, from: int, to: int, raw: Seq<char>) -> nat
    decreases to - from,
{
    if to <= from {
        0
    } else {
        seen(all, from, to - 1, raw) + if all[to - 1] is Entry && all[to - 1].raw() == raw {
            1nat
        } else {
            0nat
        }
    }
}

/// How often a text was rendered.
pub open spec fn copies(rendered: Seq<Seq<char>>, raw: Seq<char>) -> nat
    decreases rendered.len(),
{
    if rendered.len() == 0 {
        0
    } else {
        copies(rendered.drop_last(), raw) + if rendered.last() == raw {
            1nat
        } else {
            0nat
        }
    }
}

/// The line is an entry that was not rendered: every rendered copy of its text is
/// accounted for by an entry before it.
pub open spec fn unrendered_at(
    all: Seq<LineModel>,
    rendered: Seq<Seq<char>>,
    from: int,
    i: int,
) -> bool {
    all[i] is Entry && seen(all, from, i, all[i].raw()) >= copies(rendered, all[i].raw())
}

/// The first entry at or behind `i` that was not rendered, or the end.
pub open spec fn boundary_from(
    all: Seq<LineModel>,
    rendered: Seq<Seq<char>>,
    from: int,
    i: int,
) -> int
    decreases all.len() - i,
{
    if i >= all.len() {
        all.len() as int
    } else if unrendered_at(all, rendered, from, i) {
        i
    } else {
        boundary_from(all, rendered, from, i + 1)
    }
}

/// Where the new marker goes: before the first entry of the region that was not
/// rendered.
pub open spec fn boundary(all: Seq<LineModel>, rendered: Seq<Seq<char>>) -> int {
    boundary_from(all, rendered, region(all), region(all))
}

/// The lines that are archived: everything before the region, save the lines of no
/// known shape.
pub open spec fn archived_lines(all: Seq<LineModel>) -> Seq<LineModel> {
    renew(all.take(region(all)).filter(known()))
}

/// The lines that stay: those of no known shape, the region, and the new marker at the
/// boundary.
pub open spec fn kept_lines(
    all: Seq<LineModel>,
    rendered: Seq<Seq<char>>,
    marker: Seq<char>,
) -> Seq<LineModel> {
    let a = region(all);
    let b = boundary(all, rendered);
    all.take(a).filter(opaque()) + renew(all.subrange(a, b)) + seq![
        LineModel::Marker(marker, marker),
    ] + renew(all.skip(b))
}

/// Why a harvest is not committed.
#[derive(Debug, Clone, Copy, PartialEq, Eq, Structural)]
pub enum HarvestError {
    /// The date of the report is no date.
    InvalidReportDate,
}

/// How a harvest is committed.
#[derive(Debug)]
pub enum HarvestCommit {
    /// By appending to the journal: nothing moves, so nothing is rewritten.
    Append {
        /// The marker line with its line feed, and one before it where the last line of
        /// the journal has none.
        line: String,
    },
    /// By appending to the archive, where there is something to, and rewriting the
    /// journal.
    Rewrite {
        /// What goes to the archive.
        archived: String,
        /// What stays in the journal.
        kept: String,
    },
}

/// What holds of the boundary.
pub proof fn lemma_boundary(all: Seq<LineModel>, rendered: Seq<Seq<char>>, from: int, i: int)
    requires
        0 <= i <= all.len(),
    ensures
        i <= boundary_from(all, rendered, from, i) <= all.len(),
        forall|j: int|
            i <= j < boundary_from(all, rendered, from, i) ==> !#[trigger] unrendered_at(
                all,
                rendered,
                from,
                j,
            ),
        boundary_from(all, rendered, from, i) < all.len() ==> unrendered_at(
            all,
            rendered,
            from,
            boundary_from(all, rendered, from, i),
        ),
    decreases all.len() - i,
{
    if i < all.len() && !unrendered_at(all, rendered, from, i) {
        lemma_boundary(all, rendered, from, i + 1);
    }
}

/// The boundary is fixed by what holds of it.
proof fn lemma_boundary_is(
    all: Seq<LineModel>,
    rendered: Seq<Seq<char>>,
    from: int,
    i: int,
    b: int,
)
    requires
        0 <= i <= b <= all.len(),
        forall|j: int| i <= j < b ==> !#[trigger] unrendered_at(all, rendered, from, j),
        b < all.len() ==> unrendered_at(all, rendered, from, b),
    ensures
        boundary_from(all, rendered, from, i) == b,
{
    lemma_boundary(all, rendered, from, i);
    let c = boundary_from(all, rendered, from, i);
    if b < c {
        assert(!unrendered_at(all, rendered, from, b));
    } else if c < b {
        assert(!unrendered_at(all, rendered, from, c));
    }
}

proof fn lemma_text_push(all: Seq<Seq<char>>, line: Seq<char>)
    ensures
        text_of(all.push(line)) == text_of(all) + line.push('\n'),
{
    assert(all.push(line).drop_last() =~= all);
}

/// How often a text was rendered.
fn count_copies(rendered: &[String], raw: &str) -> (n: usize)
    ensures
        n == copies(views(rendered@), raw@),
{
    let ghost all = views(rendered@);
    let mut n: usize = 0;
    let mut i: usize = 0;
    proof {
        assert(all.take(0) =~= Seq::empty());
    }
    while i < rendered.len()
        invariant
            i <= rendered.len(),
            all == views(rendered@),
            n == copies(all.take(i as int), raw@),
            n <= i,
        decreases rendered.len() - i,
    {
        proof {
            assert(all.take(i + 1).drop_last() =~= all.take(i as int));
            assert(all.take(i + 1).last() == rendered@[i as int]@);
        }
        if same(rendered[i].as_str(), raw) {
            n = n + 1;
        }
        i = i + 1;
    }
    proof {
        assert(all.take(i as int) =~= all);
    }
    n
}

/// How many entries with this text stand in `from..to`.
fn count_seen(lines: &Vec<JournalLine>, from: usize, to: usize, raw: &str) -> (n: usize)
    requires
        from <= to <= lines.len(),
    ensures
        n == seen(models(lines@), from as int, to as int, raw@),
{
    let ghost all = models(lines@);
    let mut n: usize = 0;
    let mut i: usize = from;
    while i < to
        invariant
            from <= i <= to <= lines.len(),
            all == models(lines@),
            n == seen(all, from as int, i as int, raw@),
            n <= i - from,
        decreases to - i,
    {
        proof {
            assert(all[i as int] == lines@[i as int]@);
        }
        if let JournalLine::Entry { raw: text, .. } = &lines[i] {
            if same(text.as_str(), raw) {
                n = n + 1;
            }
        }
        i = i + 1;
    }
    n
}

/// Whether the line is an entry that was not rendered.
fn is_unrendered(lines: &Vec<JournalLine>, rendered: &[String], from: usize, i: usize) -> (r:
    bool)
    requires
        from <= i < lines.len(),
    ensures
        r == unrendered_at(models(lines@), views(rendered@), from as int, i as int),
{
    proof {
        assert(models(lines@)[i as int] == lines@[i as int]@);
    }
    match &lines[i] {
        JournalLine::Entry { raw, .. } => count_seen(lines, from, i, raw.as_str())
            >= count_copies(rendered, raw.as_str()),
        _ => false,
    }
}

/// The text of a line as it is written.
fn line_text(line: &JournalLine) -> (text: &str)
    ensures
        text@ == written(line@),
{
    match line {
        JournalLine::Entry { raw, .. } => raw.as_str(),
        JournalLine::Marker { rewritten, .. } => rewritten.as_str(),
        JournalLine::Opaque { raw } => raw.as_str(),
    }
}

/// Splits what stands before the region into what is archived and what stays.
fn split_history(lines: &Vec<JournalLine>, region_start: usize) -> (parts: (String, String))
    requires
        region_start <= lines.len(),
    ensures
        parts.0@ == text_of(texts(models(lines@).take(region_start as int).filter(known()))),
        parts.1@ == text_of(texts(models(lines@).take(region_start as int).filter(opaque()))),
        (parts.0@.len() == 0) == (models(lines@).take(region_start as int).filter(known()).len()
            == 0),
{
    let ghost all = models(lines@);
    let mut archived = String::new();
    let mut kept = String::new();
    let mut i: usize = 0;
    proof {
        reveal(Seq::filter);
        assert(all.take(0) =~= Seq::empty());
        assert(texts(all.take(0).filter(known())) =~= Seq::empty());
        assert(texts(all.take(0).filter(opaque())) =~= Seq::empty());
    }
    while i < region_start
        invariant
            i <= region_start <= lines.len(),
            all == models(lines@),
            archived@ == text_of(texts(all.take(i as int).filter(known()))),
            kept@ == text_of(texts(all.take(i as int).filter(opaque()))),
            (archived@.len() == 0) == (all.take(i as int).filter(known()).len() == 0),
        decreases region_start - i,
    {
        let line = &lines[i];
        let text = line_text(line);
        proof {
            reveal(Seq::filter);
            let before = all.take(i as int);
            let upto = all.take(i + 1);
            assert(upto.drop_last() =~= before);
            assert(upto.last() == line@);
            assert(texts(before.filter(known()).push(line@)) =~= texts(
                before.filter(known()),
            ).push(text@));
            assert(texts(before.filter(opaque()).push(line@)) =~= texts(
                before.filter(opaque()),
            ).push(text@));
            lemma_text_push(texts(before.filter(known())), text@);
            lemma_text_push(texts(before.filter(opaque())), text@);
        }
        if matches!(line, JournalLine::Opaque { .. }) {
            push_line(&mut kept, text);
        } else {
            push_line(&mut archived, text);
        }
        i = i + 1;
    }
    (archived, kept)
}

impl JournalStore {
    /// Commits a harvest that rendered these lines, under the date of its report:
    /// the marker line goes before the first entry behind the last marker that was
    /// not rendered. A text that was rendered twice accounts for two entries, no
    /// more. What the harvest before consumed goes to the archive, together with
    /// older markers.
    pub fn commit_harvest(
        &self,
        report_date: &str,
        rendered: &[String],
        marker_line: &str,
    ) -> (outcome: Result<HarvestCommit, HarvestError>)
        ensures
            ({
                let moved = archived_lines(self@);
                let kept_model = kept_lines(self@, views(rendered@), marker_line@);
                match outcome {
                    Err(_) => !calendar_date(report_date@),
                    Ok(commit) => calendar_date(report_date@) && if moved.len() == 0 && boundary(
                        self@,
                        views(rendered@),
                    ) == self@.len() {
                        commit matches HarvestCommit::Append { line } && line@
                            == appended_text(marker_line@, self.open_end())
                    } else {
                        commit matches HarvestCommit::Rewrite { archived, kept } && archived@
                            == text_of(texts(moved)) && kept@ == text_of(texts(kept_model))
                    },
                }
            }),
    {
        if !is_calendar_date(report_date) {
            return Err(HarvestError::InvalidReportDate);
        }
        Ok(self.place_marker(rendered, marker_line))
    }

    /// Places the marker line of a harvest.
    pub fn place_marker(&self, rendered: &[String], marker_line: &str) -> (commit: HarvestCommit)
        ensures
            ({
                let moved = archived_lines(self@);
                let kept_model = kept_lines(self@, views(rendered@), marker_line@);
                if moved.len() == 0 && boundary(self@, views(rendered@)) == self@.len() {
                    commit matches HarvestCommit::Append { line } && line@ == appended_text(
                        marker_line@,
                        self.open_end(),
                    )
                } else {
                    commit matches HarvestCommit::Rewrite { archived, kept } && archived@
                        == text_of(texts(moved)) && kept@ == text_of(texts(kept_model))
                }
            }),
    {
        let lines = self.all_lines();
        let ghost all = self@;
        let ghost given = views(rendered@);
        proof {
            assert(all.take(lines.len() as int) =~= all);
            lemma_last_marker(all);
        }
        let start: usize = match marker_before(lines, lines.len()) {
            Some(last) => last,
            None => 0,
        };
        let ghost a = start as int;
        assert(a == region(all));
        let (archived, history) = split_history(lines, start);
        let ghost old_opaque = all.take(a).filter(opaque());
        let ghost moved = all.take(a).filter(known());
        proof {
            lemma_texts_renew(moved);
        }
        let mut kept = history;
        let mut inserted: bool = false;
        let ghost mut b: int = all.len() as int;
        let ghost mut sofar: Seq<Seq<char>> = texts(old_opaque);
        let mut i: usize = start;
        proof {
            assert(texts(all.subrange(a, a)) =~= Seq::empty());
            assert(sofar =~= texts(old_opaque) + texts(all.subrange(a, a)));
        }
        while i < lines.len()
            invariant
                start <= i <= lines.len(),
                a == start,
                all == models(lines@),
                given == views(rendered@),
                kept@ == text_of(sofar),
                !inserted ==> b == all.len() && (forall|j: int|
                    a <= j < i ==> !#[trigger] unrendered_at(all, given, a, j)) && sofar == texts(
                    old_opaque,
                ) + texts(all.subrange(a, i as int)),
                inserted ==> a <= b < i && unrendered_at(all, given, a, b) && (forall|j: int|
                    a <= j < b ==> !#[trigger] unrendered_at(all, given, a, j)) && sofar == texts(
                    old_opaque,
                ) + texts(all.subrange(a, b)) + seq![marker_line@] + texts(
                    all.subrange(b, i as int),
                ),
            decreases lines.len() - i,
        {
            let line = &lines[i];
            let ghost before = sofar;
            proof {
                assert(all[i as int] == line@);
                assert(all.subrange(a, i + 1) =~= all.subrange(a, i as int).push(line@));
                assert(texts(all.subrange(a, i + 1)) =~= texts(all.subrange(a, i as int)).push(
                    written(line@),
                ));
            }
            if !inserted && is_unrendered(lines, rendered, start, i) {
                proof {
                    lemma_text_push(sofar, marker_line@);
                    sofar = sofar.push(marker_line@);
                    b = i as int;
                    assert(texts(all.subrange(b, b)) =~= Seq::empty());
                    assert(sofar =~= texts(old_opaque) + texts(all.subrange(a, b)) + seq![
                        marker_line@,
                    ] + texts(all.subrange(b, i as int)));
                }
                push_line(&mut kept, marker_line);
                inserted = true;
            }
            let text = line_text(line);
            proof {
                lemma_text_push(sofar, text@);
                if inserted {
                    assert(all.subrange(b, i + 1) =~= all.subrange(b, i as int).push(line@));
                    assert(texts(all.subrange(b, i + 1)) =~= texts(
                        all.subrange(b, i as int),
                    ).push(text@));
                    assert(sofar.push(text@) =~= texts(old_opaque) + texts(all.subrange(a, b))
                        + seq![marker_line@] + texts(all.subrange(b, i + 1)));
                } else {
                    assert(sofar.push(text@) =~= texts(old_opaque) + texts(
                        all.subrange(a, i + 1),
                    ));
                }
                sofar = sofar.push(text@);
            }
            push_line(&mut kept, text);
            i = i + 1;
        }
        proof {
            lemma_boundary_is(all, given, a, a, b);
            lemma_kept_texts(all, given, marker_line@);
            assert(all.subrange(b, all.len() as int) =~= all.skip(b));
            if !inserted {
                assert(texts(all.skip(b)) =~= Seq::empty());
                assert(all.subrange(a, all.len() as int) =~= all.subrange(a, b));
                lemma_text_push(sofar, marker_line@);
                assert(sofar.push(marker_line@) =~= texts(
                    kept_lines(all, given, marker_line@),
                ));
            } else {
                assert(sofar =~= texts(kept_lines(all, given, marker_line@)));
            }
        }
        if !inserted {
            if archived.as_str().is_empty() {
                let line = appended_line(marker_line, self.has_open_end());
                return HarvestCommit::Append { line };
            }
            push_line(&mut kept, marker_line);
        }
        HarvestCommit::Rewrite { archived, kept }
    }
}

proof fn lemma_texts_renew(all: Seq<LineModel>)
    ensures
        texts(renew(all)) == texts(all),
        renew(all).len() == all.len(),
{
    assert(texts(renew(all)) =~= texts(all));
}

proof fn lemma_kept_texts(all: Seq<LineModel>, rendered: Seq<Seq<char>>, marker: Seq<char>)
    ensures
        ({
            let a = region(all);
            let b = boundary(all, rendered);
            texts(kept_lines(all, rendered, marker)) == texts(all.take(a).filter(opaque()))
                + texts(all.subrange(a, b)) + seq![marker] + texts(all.skip(b))
        }),
{
    let a = region(all);
    let b = boundary(all, rendered);
    lemma_texts_renew(all.subrange(a, b));
    lemma_texts_renew(all.skip(b));
    let x = all.take(a).filter(opaque());
    let y = renew(all.subrange(a, b));
    let m = seq![LineModel::Marker(marker, marker)];
    let z = renew(all.skip(b));
    assert(texts(x + y + m + z) =~= texts(x) + texts(y) + texts(m) + texts(z));
    assert(texts(m) =~= seq![marker]);
}

} // verus!
