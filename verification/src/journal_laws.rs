//! What holds of the journal as a whole.

use vstd::prelude::*;
use crate::harvest::{
    archived_lines, boundary, copies, kept_lines, known, lemma_boundary, region, renew, renewed,
    seen, unrendered_at,
};
use crate::journal::{
    appended_text, at_line_start, is_fresh, is_no_entry_with, last_marker, lemma_last_marker,
    lemma_marker_count_concat, lemma_markers_behind, lemma_no_markers, marker_count, not_blank,
    opaque, rows, rows_upto, status_behind, text_of, EntryModel, JournalEntryStatus, LineModel,
    RowModel,
};
use crate::words::{lemma_run_len, lemma_run_len_is, lines, not_char, run_len};

verus! {

/// The entries of the journal, read from the front: the status of the first counts the
/// markers behind it.
pub open spec fn rows_from(all: Seq<LineModel>) -> Seq<RowModel>
    decreases all.len(),
{
    if all.len() == 0 {
        Seq::empty()
    } else {
        let rest = all.drop_first();
        match all[0] {
            LineModel::Entry(entry, raw) => seq![
                RowModel { entry, status: status_behind(marker_count(rest)), raw },
            ] + rows_from(rest),
            _ => rows_from(rest),
        }
    }
}

/// Both ways of reading the journal list the same entries.
pub proof fn lemma_rows_from(all: Seq<LineModel>, n: int)
    requires
        0 <= n <= all.len(),
    ensures
        rows_upto(all, n) + rows_from(all.skip(n)) == rows_from(all),
    decreases n,
{
    if n == 0 {
        assert(all.skip(0) =~= all);
        assert(rows_upto(all, 0) + rows_from(all) =~= rows_from(all));
    } else {
        lemma_rows_from(all, n - 1);
        let rest = all.skip(n - 1);
        assert(rest.drop_first() =~= all.skip(n));
        assert(rest[0] == all[n - 1]);
        assert(rows_upto(all, n) + rows_from(all.skip(n)) =~= rows_upto(all, n - 1) + rows_from(
            rest,
        ));
    }
}

proof fn lemma_rows_are_rows_from(all: Seq<LineModel>)
    ensures
        rows(all) == rows_from(all),
{
    lemma_rows_from(all, all.len() as int);
    assert(all.skip(all.len() as int) =~= Seq::empty());
    assert(rows_upto(all, all.len() as int) + rows_from(Seq::empty()) =~= rows_upto(
        all,
        all.len() as int,
    ));
}

/// The rows of other texts.
pub open spec fn other_rows(raw: Seq<char>) -> spec_fn(RowModel) -> bool {
    |r: RowModel| r.raw != raw
}

proof fn lemma_filter_front<A>(s: Seq<A>, keep: spec_fn(A) -> bool)
    requires
        s.len() > 0,
    ensures
        s.filter(keep) == (if keep(s[0]) {
            seq![s[0]] + s.drop_first().filter(keep)
        } else {
            s.drop_first().filter(keep)
        }),
{
    let one = seq![s[0]];
    assert(s =~= one + s.drop_first());
    Seq::filter_distributes_over_add(one, s.drop_first(), keep);
    reveal(Seq::filter);
    assert(one.drop_last() =~= Seq::empty());
    assert(one.drop_last().filter(keep) =~= Seq::empty());
    assert(one.filter(keep) =~= (if keep(s[0]) {
        one
    } else {
        Seq::empty()
    }));
    assert(Seq::<A>::empty() + s.drop_first().filter(keep) =~= s.drop_first().filter(keep));
}

/// A delete takes the rows with that text off the list and nothing else: every other
/// row stays, in its place and with its status.
pub proof fn law_a_delete_leaves_the_rest(all: Seq<LineModel>, raw: Seq<char>)
    ensures
        rows(all.filter(is_no_entry_with(raw))) == rows(all).filter(other_rows(raw)),
        marker_count(all.filter(is_no_entry_with(raw))) == marker_count(all),
{
    lemma_rows_are_rows_from(all);
    lemma_rows_are_rows_from(all.filter(is_no_entry_with(raw)));
    lemma_delete_from(all, raw);
}

proof fn lemma_delete_from(all: Seq<LineModel>, raw: Seq<char>)
    ensures
        rows_from(all.filter(is_no_entry_with(raw))) == rows_from(all).filter(other_rows(raw)),
        marker_count(all.filter(is_no_entry_with(raw))) == marker_count(all),
    decreases all.len(),
{
    reveal(Seq::filter);
    let keep = is_no_entry_with(raw);
    if all.len() == 0 {
        assert(all.filter(keep) =~= all);
        assert(rows_from(all).filter(other_rows(raw)) =~= Seq::empty());
    } else {
        let rest = all.drop_first();
        lemma_delete_from(rest, raw);
        lemma_filter_front(all, keep);
        assert(all =~= seq![all[0]] + rest);
        lemma_marker_count_concat(seq![all[0]], rest);
        let left = rest.filter(keep);
        if keep(all[0]) {
            let kept = all.filter(keep);
            assert(kept == seq![all[0]] + left);
            assert(kept.drop_first() =~= left);
            lemma_marker_count_concat(seq![all[0]], left);
        } else {
            lemma_no_markers(seq![all[0]]);
        }
        if all[0] is Entry {
            lemma_filter_front(rows_from(all), other_rows(raw));
            assert(rows_from(all).drop_first() =~= rows_from(rest));
        }
        assert(rows_from(all.filter(keep)) =~= rows_from(all).filter(other_rows(raw)));
    }
}

// ---------------------------------------------------------------------------
// Reading back
// ---------------------------------------------------------------------------

/// The text is one line of a file, and not a blank one: no line feed is in it, and no
/// carriage return ends it, which would be taken for a part of the line end.
pub open spec fn plain_line(raw: Seq<char>) -> bool {
    &&& forall|i: int| 0 <= i < raw.len() ==> #[trigger] raw[i] != '\n'
    &&& raw.len() > 0 ==> raw.last() != '\r'
    &&& not_blank()(raw)
}

pub(crate) proof fn lemma_lines_concat(a: Seq<char>, b: Seq<char>)
    requires
        at_line_start(a),
    ensures
        lines(a + b) == lines(a) + lines(b),
    decreases a.len(),
{
    let keep = not_char('\n');
    if a.len() == 0 {
        assert(a + b =~= b);
        assert(lines(a) + lines(b) =~= lines(b));
    } else {
        lemma_run_len(a, keep);
        let k = run_len(a, keep) as int;
        let s = a + b;
        assert(k < a.len()) by {
            if k >= a.len() {
                assert(keep(a[a.len() - 1]));
            }
        }
        assert forall|j: int| 0 <= j < k implies keep(#[trigger] s[j]) by {
            assert(s[j] == a[j]);
        }
        assert(s[k] == a[k]);
        lemma_run_len_is(s, keep, k);
        let rest = a.skip(k + 1);
        assert(at_line_start(rest));
        assert(s.take(k) =~= a.take(k));
        assert(s.skip(k + 1) =~= rest + b);
        lemma_lines_concat(rest, b);
        assert(lines(s) =~= lines(a) + lines(b));
    }
}

proof fn lemma_single_plain_line(raw: Seq<char>)
    requires
        plain_line(raw),
    ensures
        lines(raw.push('\n')) == seq![raw],
{
    let keep = not_char('\n');
    let s = raw.push('\n');
    let k = raw.len() as int;
    assert forall|j: int| 0 <= j < k implies keep(#[trigger] s[j]) by {
        assert(s[j] == raw[j]);
    }
    assert(!keep(s[k]));
    lemma_run_len_is(s, keep, k);
    assert(s.take(k) =~= raw);
    assert(s.skip(k + 1) =~= Seq::empty());
    assert(lines(Seq::empty()) == Seq::<Seq<char>>::empty());
    assert(lines(s) =~= seq![raw]);
}

/// What is appended to a file is read back: its line follows those that were there,
/// which stay as they were.
pub proof fn law_an_appended_line_is_read_back(content: Seq<char>, raw: Seq<char>)
    requires
        at_line_start(content),
        plain_line(raw),
    ensures
        lines(content + raw.push('\n')).filter(not_blank()) == lines(content).filter(
            not_blank(),
        ).push(raw),
{
    reveal(Seq::filter);
    lemma_lines_concat(content, raw.push('\n'));
    lemma_single_plain_line(raw);
    let before = lines(content);
    assert(before + seq![raw] =~= before.push(raw));
    assert(before.push(raw).drop_last() =~= before);
}

/// The line feed that ends the last line does not count as a line.
proof fn lemma_closed_end(content: Seq<char>)
    requires
        !at_line_start(content),
        content.last() != '\r',
    ensures
        lines(content.push('\n')) == lines(content),
    decreases content.len(),
{
    let keep = not_char('\n');
    let s = content.push('\n');
    lemma_run_len(content, keep);
    let k = run_len(content, keep) as int;
    assert forall|j: int| 0 <= j < k implies keep(#[trigger] s[j]) by {
        assert(s[j] == content[j]);
    }
    if k == content.len() {
        assert(!keep(s[k]));
        lemma_run_len_is(s, keep, k);
        assert(s.take(k) =~= content);
        assert(s.skip(k + 1) =~= Seq::empty());
        assert(lines(Seq::empty()) == Seq::<Seq<char>>::empty());
        assert(lines(s) =~= lines(content));
    } else {
        assert(s[k] == content[k]);
        lemma_run_len_is(s, keep, k);
        let rest = content.skip(k + 1);
        assert(k + 1 < content.len());
        assert(rest.last() == content.last());
        assert(s.take(k) =~= content.take(k));
        assert(s.skip(k + 1) =~= rest.push('\n'));
        lemma_closed_end(rest);
        assert(lines(s) =~= lines(content));
    }
}

/// A marker or an entry that is appended is read back as a line of its own, behind the
/// lines that were there, whether or not the last of them had its line feed. A last line
/// that ends in a carriage return alone is left out: the line feed would take it for its
/// own.
pub proof fn law_an_appended_line_is_its_own(content: Seq<char>, marker: Seq<char>)
    requires
        plain_line(marker),
        at_line_start(content) || content.last() != '\r',
    ensures
        lines(content + appended_text(marker, !at_line_start(content))).filter(not_blank())
            == lines(content).filter(not_blank()).push(marker),
{
    if at_line_start(content) {
        law_an_appended_line_is_read_back(content, marker);
    } else {
        let closed = content.push('\n');
        lemma_closed_end(content);
        law_an_appended_line_is_read_back(closed, marker);
        assert(content + appended_text(marker, true) =~= closed + marker.push('\n'));
    }
}

/// What is written line by line is read back as the same lines.
pub proof fn law_written_lines_are_read_back(all: Seq<Seq<char>>)
    requires
        forall|i: int| 0 <= i < all.len() ==> plain_line(#[trigger] all[i]),
    ensures
        lines(text_of(all)).filter(not_blank()) == all,
    decreases all.len(),
{
    reveal(Seq::filter);
    if all.len() == 0 {
        assert(lines(text_of(all)).filter(not_blank()) =~= all);
    } else {
        let init = all.drop_last();
        assert forall|i: int| 0 <= i < init.len() implies plain_line(#[trigger] init[i]) by {
            assert(init[i] == all[i]);
        }
        law_written_lines_are_read_back(init);
        assert(at_line_start(text_of(init))) by {
            if init.len() > 0 {
                assert(text_of(init).last() == '\n');
            }
        }
        assert(plain_line(all[all.len() - 1]));
        law_an_appended_line_is_read_back(text_of(init), all.last());
        assert(init.push(all.last()) =~= all);
    }
}

/// An entry that is appended is listed last and unconsumed, and every other entry
/// keeps its place and its status.
pub proof fn law_an_appended_entry_is_listed_last(
    all: Seq<LineModel>,
    entry: EntryModel,
    raw: Seq<char>,
)
    ensures
        rows(all.push(LineModel::Entry(entry, raw))) == rows(all).push(
            RowModel { entry, status: JournalEntryStatus::Unconsumed, raw },
        ),
{
    let more = all.push(LineModel::Entry(entry, raw));
    lemma_rows_before_an_append(all, entry, raw, all.len() as int);
    assert(more.skip(all.len() as int + 1) =~= Seq::empty());
    assert(marker_count(Seq::<LineModel>::empty()) == 0);
}

proof fn lemma_rows_before_an_append(
    all: Seq<LineModel>,
    entry: EntryModel,
    raw: Seq<char>,
    n: int,
)
    requires
        0 <= n <= all.len(),
    ensures
        rows_upto(all.push(LineModel::Entry(entry, raw)), n) == rows_upto(all, n),
    decreases n,
{
    let new = LineModel::Entry(entry, raw);
    let more = all.push(new);
    if n > 0 {
        lemma_rows_before_an_append(all, entry, raw, n - 1);
        let behind = all.skip(n);
        assert(more.skip(n) =~= behind.push(new));
        assert(behind.push(new).drop_last() =~= behind);
        assert(more[n - 1] == all[n - 1]);
    }
}

// ---------------------------------------------------------------------------
// Harvests
// ---------------------------------------------------------------------------

proof fn lemma_region(all: Seq<LineModel>)
    ensures
        0 <= region(all) <= all.len(),
        forall|j: int| region(all) < j < all.len() ==> !((#[trigger] all[j]) is Marker),
        last_marker(all) is None ==> marker_count(all) == 0,
        region(all) < all.len() && all[region(all)] is Marker || last_marker(all) is None,
{
    lemma_last_marker(all);
    if last_marker(all) is None {
        lemma_no_markers(all);
    }
}

proof fn lemma_boundary_place(all: Seq<LineModel>, rendered: Seq<Seq<char>>)
    ensures
        region(all) <= boundary(all, rendered) <= all.len(),
        forall|j: int|
            boundary(all, rendered) <= j < all.len() ==> !((#[trigger] all[j]) is Marker),
{
    lemma_region(all);
    lemma_boundary(all, rendered, region(all), region(all));
    let a = region(all);
    let b = boundary(all, rendered);
    assert forall|j: int| b <= j < all.len() implies !((#[trigger] all[j]) is Marker) by {
        if j == a {
            assert(unrendered_at(all, rendered, a, b));
        }
    }
}

proof fn lemma_renew_markers(all: Seq<LineModel>)
    ensures
        marker_count(renew(all)) == marker_count(all),
    decreases all.len(),
{
    if all.len() > 0 {
        lemma_renew_markers(all.drop_last());
        assert(renew(all).drop_last() =~= renew(all.drop_last()));
        assert(renew(all).last() == renewed(all.last()));
    } else {
        assert(renew(all) =~= all);
    }
}

proof fn lemma_opaque_no_markers(all: Seq<LineModel>)
    ensures
        marker_count(all.filter(opaque())) == 0,
        rows_from(all.filter(opaque())) == Seq::<RowModel>::empty(),
    decreases all.len(),
{
    reveal(Seq::filter);
    if all.len() == 0 {
        assert(all.filter(opaque()) =~= Seq::empty());
    } else {
        lemma_opaque_no_markers(all.drop_first());
        lemma_filter_front(all, opaque());
        let left = all.drop_first().filter(opaque());
        if all[0] is Opaque {
            lemma_no_markers(seq![all[0]]);
            lemma_marker_count_concat(seq![all[0]], left);
            assert((seq![all[0]] + left).drop_first() =~= left);
        }
    }
}

/// The journal keeps two markers at most: the last one from before and the new one.
pub proof fn law_two_markers_at_most(
    all: Seq<LineModel>,
    rendered: Seq<Seq<char>>,
    marker: Seq<char>,
)
    ensures
        1 <= marker_count(kept_lines(all, rendered, marker)) <= 2,
{
    let a = region(all);
    let b = boundary(all, rendered);
    lemma_region(all);
    lemma_boundary_place(all, rendered);
    let x = all.take(a).filter(opaque());
    let y = all.subrange(a, b);
    let m = seq![LineModel::Marker(marker, marker)];
    let z = all.skip(b);
    lemma_opaque_no_markers(all.take(a));
    assert forall|j: int| 0 <= j < z.len() implies !((#[trigger] z[j]) is Marker) by {
        assert(z[j] == all[b + j]);
    }
    lemma_no_markers(z);
    lemma_renew_markers(y);
    lemma_renew_markers(z);
    if y.len() > 0 {
        let tail = y.drop_first();
        assert forall|j: int| 0 <= j < tail.len() implies !((#[trigger] tail[j]) is Marker) by {
            assert(tail[j] == all[a + 1 + j]);
        }
        lemma_no_markers(tail);
        assert(y =~= seq![y[0]] + tail);
        lemma_marker_count_concat(seq![y[0]], tail);
        lemma_one(y[0]);
    } else {
        lemma_no_markers(y);
    }
    lemma_one(m[0]);
    assert(m =~= seq![m[0]]);
    lemma_marker_count_concat(x, renew(y));
    lemma_marker_count_concat(x + renew(y), m);
    lemma_marker_count_concat(x + renew(y) + m, renew(z));
}

proof fn lemma_one(line: LineModel)
    ensures
        marker_count(seq![line]) == (if line is Marker {
            1nat
        } else {
            0nat
        }),
{
    assert(seq![line].drop_last() =~= Seq::empty());
    assert(marker_count(Seq::empty()) == 0);
}

/// Nothing is lost by a harvest: every line is in the archive or in the journal, once,
/// and only the new marker is new.
pub proof fn law_a_harvest_loses_nothing(
    all: Seq<LineModel>,
    rendered: Seq<Seq<char>>,
    marker: Seq<char>,
)
    ensures
        (archived_lines(all) + kept_lines(all, rendered, marker)).to_multiset() == renew(
            all,
        ).to_multiset().insert(LineModel::Marker(marker, marker)),
        forall|i: int|
            0 <= i < archived_lines(all).len() ==> !((#[trigger] archived_lines(all)[i]) is Opaque),
{
    broadcast use vstd::seq_lib::group_to_multiset_ensures;

    let a = region(all);
    let b = boundary(all, rendered);
    lemma_region(all);
    lemma_boundary_place(all, rendered);
    let new = LineModel::Marker(marker, marker);
    let head = all.take(a);
    let x = head.filter(opaque());
    let y = renew(all.subrange(a, b));
    let m = seq![new];
    let z = renew(all.skip(b));
    lemma_partition(head);
    let arch = archived_lines(all);
    let kept = kept_lines(all, rendered, marker);
    vstd::seq_lib::lemma_multiset_commutative(arch, kept);
    vstd::seq_lib::lemma_multiset_commutative(x + y + m, z);
    vstd::seq_lib::lemma_multiset_commutative(x + y, m);
    vstd::seq_lib::lemma_multiset_commutative(x, y);
    assert(renew(all) =~= renew(head) + y + z);
    vstd::seq_lib::lemma_multiset_commutative(renew(head) + y, z);
    vstd::seq_lib::lemma_multiset_commutative(renew(head), y);
    assert(m =~= Seq::<LineModel>::empty().push(new));
    assert(Seq::<LineModel>::empty().to_multiset() =~= vstd::multiset::Multiset::empty());
    assert((arch + kept).to_multiset() =~= renew(all).to_multiset().insert(new));
    assert forall|i: int| 0 <= i < arch.len() implies !((#[trigger] arch[i]) is Opaque) by {
        head.lemma_filter_pred(known(), i);
        assert(arch[i] == renewed(head.filter(known())[i]));
    }
}

/// Lines of known shape and others make up the whole.
proof fn lemma_partition(all: Seq<LineModel>)
    ensures
        renew(all.filter(known())).to_multiset().add(all.filter(opaque()).to_multiset()) == renew(
            all,
        ).to_multiset(),
    decreases all.len(),
{
    broadcast use vstd::seq_lib::group_to_multiset_ensures;

    reveal(Seq::filter);
    if all.len() == 0 {
        assert(renew(all.filter(known())) =~= Seq::empty());
        assert(all.filter(opaque()) =~= Seq::empty());
        assert(renew(all) =~= Seq::empty());
        assert(Seq::<LineModel>::empty().to_multiset() =~= vstd::multiset::Multiset::empty());
        assert(renew(all.filter(known())).to_multiset().add(all.filter(opaque()).to_multiset())
            =~= renew(all).to_multiset());
    } else {
        let init = all.drop_last();
        let last = all.last();
        lemma_partition(init);
        assert(renew(all) =~= renew(init).push(renewed(last)));
        if last is Opaque {
            assert(all.filter(opaque()) =~= init.filter(opaque()).push(last));
            assert(all.filter(known()) =~= init.filter(known()));
        } else {
            assert(all.filter(known()) =~= init.filter(known()).push(last));
            assert(renew(all.filter(known())) =~= renew(init.filter(known())).push(renewed(last)));
            assert(all.filter(opaque()) =~= init.filter(opaque()));
        }
        assert(renew(all.filter(known())).to_multiset().add(all.filter(opaque()).to_multiset())
            =~= renew(all).to_multiset());
    }
}

/// A harvest consumes no more than it rendered: of every text, no more entries are
/// marked than copies were rendered. So an entry that was withheld, that was appended
/// meanwhile, or whose twin alone was rendered stays unconsumed.
pub proof fn law_a_harvest_consumes_what_it_rendered(
    all: Seq<LineModel>,
    rendered: Seq<Seq<char>>,
    raw: Seq<char>,
)
    ensures
        seen(all, region(all), boundary(all, rendered), raw) <= copies(rendered, raw),
{
    lemma_region(all);
    lemma_boundary(all, rendered, region(all), region(all));
    lemma_seen_within(all, rendered, region(all), boundary(all, rendered), raw);
}

proof fn lemma_seen_within(
    all: Seq<LineModel>,
    rendered: Seq<Seq<char>>,
    from: int,
    to: int,
    raw: Seq<char>,
)
    requires
        forall|j: int| from <= j < to ==> !#[trigger] unrendered_at(all, rendered, from, j),
    ensures
        seen(all, from, to, raw) <= copies(rendered, raw),
    decreases to - from,
{
    if to > from {
        lemma_seen_within(all, rendered, from, to - 1, raw);
        assert(!unrendered_at(all, rendered, from, to - 1));
    }
}

/// A harvest that rendered every entry behind the last marker leaves none unconsumed: its
/// marker goes to the end.
pub proof fn law_a_full_harvest_consumes_all(all: Seq<LineModel>, rendered: Seq<Seq<char>>)
    requires
        forall|raw: Seq<char>|
            seen(all, region(all), all.len() as int, raw) <= #[trigger] copies(rendered, raw),
    ensures
        boundary(all, rendered) == all.len(),
{
    lemma_region(all);
    let a = region(all);
    let b = boundary(all, rendered);
    lemma_boundary(all, rendered, a, a);
    if b < all.len() {
        assert(unrendered_at(all, rendered, a, b));
        let raw = all[b].raw();
        lemma_seen_grows(all, a, b + 1, all.len() as int, raw);
        assert(seen(all, a, b + 1, raw) == seen(all, a, b, raw) + 1);
        assert(seen(all, a, all.len() as int, raw) <= copies(rendered, raw));
    }
}

/// The exact texts of rows.
pub open spec fn row_raws(listed: Seq<RowModel>) -> Seq<Seq<char>> {
    listed.map_values(|r: RowModel| r.raw)
}

/// The texts of the unconsumed entries are those behind the last marker.
proof fn lemma_fresh_copies(all: Seq<LineModel>, n: int, raw: Seq<char>)
    requires
        0 <= n <= all.len(),
    ensures
        copies(row_raws(rows_upto(all, n).filter(is_fresh())), raw) == seen(
            all,
            region(all),
            n,
            raw,
        ),
    decreases n,
{
    reveal(Seq::filter);
    lemma_last_marker(all);
    let upto = rows_upto(all, n);
    if n == 0 {
        assert(row_raws(upto.filter(is_fresh())) =~= Seq::empty());
    } else {
        lemma_fresh_copies(all, n - 1, raw);
        let before = rows_upto(all, n - 1);
        if all[n - 1] is Entry {
            lemma_markers_behind(all, n - 1);
            let row = upto.last();
            assert(upto.drop_last() =~= before);
            if row.status is Unconsumed {
                assert(upto.filter(is_fresh()) =~= before.filter(is_fresh()).push(row));
                let texts = row_raws(upto.filter(is_fresh()));
                assert(texts =~= row_raws(before.filter(is_fresh())).push(row.raw));
                assert(texts.drop_last() =~= row_raws(before.filter(is_fresh())));
                assert(n - 1 >= region(all));
            } else {
                assert(upto.filter(is_fresh()) =~= before.filter(is_fresh()));
                assert(n - 1 < region(all));
            }
        }
    }
}

/// A harvest of the exact texts of all unconsumed entries leaves none: neither where its
/// marker is appended, nor where the journal is rewritten.
pub proof fn law_a_harvest_of_all_leaves_none(all: Seq<LineModel>, marker: Seq<char>)
    ensures
        ({
            let rendered = row_raws(rows(all).filter(is_fresh()));
            &&& boundary(all, rendered) == all.len()
            &&& rows(kept_lines(all, rendered, marker)).filter(is_fresh()).len() == 0
            &&& rows(all.push(LineModel::Marker(marker, marker))).filter(is_fresh()).len() == 0
        }),
{
    let rendered = row_raws(rows(all).filter(is_fresh()));
    assert forall|raw: Seq<char>|
        seen(all, region(all), all.len() as int, raw) <= #[trigger] copies(rendered, raw) by {
        lemma_fresh_copies(all, all.len() as int, raw);
    }
    law_a_full_harvest_consumes_all(all, rendered);
    law_the_rest_rolls_over(all, rendered, marker);
    let none = all.skip(all.len() as int);
    assert(none =~= Seq::empty());
    assert(rows(none) =~= Seq::empty());
    let new = LineModel::Marker(marker, marker);
    let more = all.push(new);
    assert(more =~= all + seq![new] + Seq::empty());
    assert(marker_count(Seq::<LineModel>::empty()) == 0);
    lemma_fresh_behind(all, new, Seq::empty());
    lemma_rows_are_rows_from(more);
    reveal(Seq::filter);
    assert(rows_from(Seq::empty()).filter(is_fresh()) =~= Seq::empty());
}

proof fn lemma_seen_grows(all: Seq<LineModel>, from: int, to: int, end: int, raw: Seq<char>)
    requires
        from <= to <= end,
    ensures
        seen(all, from, to, raw) <= seen(all, from, end, raw),
    decreases end - to,
{
    if to < end {
        lemma_seen_grows(all, from, to, end - 1, raw);
    }
}

/// After a harvest the unconsumed entries are exactly those from the boundary on, in
/// their order.
pub proof fn law_the_rest_rolls_over(
    all: Seq<LineModel>,
    rendered: Seq<Seq<char>>,
    marker: Seq<char>,
)
    ensures
        rows(kept_lines(all, rendered, marker)).filter(is_fresh()) == rows(
            all.skip(boundary(all, rendered)),
        ),
{
    let a = region(all);
    let b = boundary(all, rendered);
    lemma_region(all);
    lemma_boundary_place(all, rendered);
    let x = all.take(a).filter(opaque()) + renew(all.subrange(a, b));
    let m = seq![LineModel::Marker(marker, marker)];
    let z = all.skip(b);
    assert forall|j: int| 0 <= j < z.len() implies !((#[trigger] z[j]) is Marker) by {
        assert(z[j] == all[b + j]);
    }
    lemma_no_markers(z);
    assert(renew(z) =~= z);
    let front = x + m;
    lemma_one(m[0]);
    assert(m =~= seq![m[0]]);
    assert(kept_lines(all, rendered, marker) =~= front + z);
    lemma_rows_are_rows_from(front + z);
    lemma_rows_are_rows_from(z);
    lemma_all_fresh(z);
    lemma_fresh_behind(x, m[0], z);
}

/// After a harvest no entry of the journal is archived: those that would be went to the
/// archive.
pub proof fn law_archived_entries_move_out(
    all: Seq<LineModel>,
    rendered: Seq<Seq<char>>,
    marker: Seq<char>,
    k: int,
)
    requires
        0 <= k < rows(kept_lines(all, rendered, marker)).len(),
    ensures
        !(rows(kept_lines(all, rendered, marker))[k].status is Archived),
{
    let a = region(all);
    let b = boundary(all, rendered);
    lemma_region(all);
    lemma_boundary_place(all, rendered);
    let kept = kept_lines(all, rendered, marker);
    let x = all.take(a).filter(opaque());
    let y = renew(all.subrange(a, b));
    let m = seq![LineModel::Marker(marker, marker)];
    let z = renew(all.skip(b));
    assert forall|i: int| 0 <= i < kept.len() && kept[i] is Entry implies marker_count(
        #[trigger] kept.skip(i + 1),
    ) <= 1 by {
        assert(i >= x.len()) by {
            if i < x.len() {
                all.take(a).lemma_filter_pred(opaque(), i);
                assert(kept[i] == x[i]);
            }
        }
        let tail = y.skip(i + 1 - x.len());
        if i < x.len() + y.len() {
            assert(kept.skip(i + 1) =~= tail + m + z);
            assert(kept[i] == y[i - x.len()]);
            assert forall|j: int| 0 <= j < tail.len() implies !((#[trigger] tail[j]) is Marker) by {
                assert(tail[j] == renewed(all[a + i + 1 - x.len() + j]));
            }
            lemma_no_markers(tail);
            lemma_marker_count_concat(tail + m, z);
            lemma_marker_count_concat(tail, m);
            lemma_one(m[0]);
            assert(m =~= seq![m[0]]);
            lemma_plain_end(all, b);
        } else {
            let n = i + 1 - x.len() - y.len() - 1;
            assert(n >= 1);
            assert(kept.skip(i + 1) =~= z.skip(n));
            assert forall|j: int| 0 <= j < z.skip(n).len() implies !((#[trigger] z.skip(n)[j])
                is Marker) by {
                assert(z.skip(n)[j] == renewed(all[b + n + j]));
            }
            lemma_no_markers(z.skip(n));
        }
    }
    lemma_none_archived(kept, kept.len() as int, k);
}

proof fn lemma_plain_end(all: Seq<LineModel>, b: int)
    requires
        0 <= b <= all.len(),
        forall|j: int| b <= j < all.len() ==> !((#[trigger] all[j]) is Marker),
    ensures
        marker_count(renew(all.skip(b))) == 0,
{
    let z = renew(all.skip(b));
    assert forall|j: int| 0 <= j < z.len() implies !((#[trigger] z[j]) is Marker) by {
        assert(z[j] == renewed(all[b + j]));
    }
    lemma_no_markers(z);
}

proof fn lemma_none_archived(all: Seq<LineModel>, n: int, k: int)
    requires
        0 <= n <= all.len(),
        0 <= k < rows_upto(all, n).len(),
        forall|i: int|
            0 <= i < all.len() && all[i] is Entry ==> marker_count(#[trigger] all.skip(i + 1)) <= 1,
    ensures
        !(rows_upto(all, n)[k].status is Archived),
    decreases n,
{
    if n > 0 {
        if k < rows_upto(all, n - 1).len() {
            lemma_none_archived(all, n - 1, k);
        } else {
            assert(all.skip(n - 1 + 1) =~= all.skip(n));
        }
    }
}

/// Without markers every entry is unconsumed.
proof fn lemma_all_fresh(z: Seq<LineModel>)
    requires
        marker_count(z) == 0,
    ensures
        rows_from(z).filter(is_fresh()) == rows_from(z),
    decreases z.len(),
{
    reveal(Seq::filter);
    if z.len() > 0 {
        let rest = z.drop_first();
        assert(z =~= seq![z[0]] + rest);
        lemma_marker_count_concat(seq![z[0]], rest);
        lemma_all_fresh(rest);
        if z[0] is Entry {
            lemma_filter_front(rows_from(z), is_fresh());
            assert(rows_from(z).drop_first() =~= rows_from(rest));
            assert(rows_from(z).filter(is_fresh()) =~= rows_from(z));
        }
    } else {
        assert(rows_from(z).filter(is_fresh()) =~= rows_from(z));
    }
}

/// With a marker behind them, entries are not unconsumed.
proof fn lemma_fresh_behind(x: Seq<LineModel>, m: LineModel, z: Seq<LineModel>)
    requires
        m is Marker,
        marker_count(z) == 0,
    ensures
        rows_from(x + seq![m] + z).filter(is_fresh()) == rows_from(z).filter(is_fresh()),
    decreases x.len(),
{
    reveal(Seq::filter);
    let all = x + seq![m] + z;
    if x.len() == 0 {
        assert(all.drop_first() =~= z);
        assert(all[0] == m);
    } else {
        let rest = x.drop_first();
        assert(all.drop_first() =~= rest + seq![m] + z);
        assert(all[0] == x[0]);
        lemma_fresh_behind(rest, m, z);
        lemma_marker_count_concat(rest + seq![m], z);
        lemma_marker_count_concat(rest, seq![m]);
        lemma_one(m);
        if x[0] is Entry {
            lemma_filter_front(rows_from(all), is_fresh());
            assert(rows_from(all).drop_first() =~= rows_from(all.drop_first()));
        }
    }
}

} // verus!
