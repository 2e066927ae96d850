//! Entries that are too long for a harvest, split into parts that are not.

use vstd::prelude::*;
use crate::decimal::{decimal, lemma_decimal, push_decimal};
use crate::journal::{
    copy_opt, last_marker, lemma_last_marker, marker_before, models, raws, EntryModel, JournalEntry,
    JournalLine, JournalStore, LineModel,
};
use crate::text::{from_range, owned, to_chars};

verus! {

/// How many characters the part marker `[part k/N] ` has beside its two numbers.
pub const PART_MARKER_LITERAL_CHARS: usize = 9;

/// How many characters a part marker takes at most, for so many parts.
pub open spec fn marker_width(parts: nat) -> nat {
    PART_MARKER_LITERAL_CHARS as nat + 2 * decimal(parts).len()
}

/// How many chunks a text makes.
pub open spec fn chunks_needed(total: nat, chunk: nat) -> nat
    recommends
        chunk > 0,
{
    if total % chunk == 0 {
        total / chunk
    } else {
        total / chunk + 1
    }
}

/// Chunks cover the text, and none is to spare.
pub proof fn lemma_chunks_needed(total: nat, chunk: nat)
    requires
        chunk > 0,
    ensures
        chunks_needed(total, chunk) * chunk >= total,
        chunks_needed(total, chunk) <= total,
        forall|k: nat| #[trigger] (k * chunk) < total ==> k < chunks_needed(total, chunk),
        chunks_needed(total, chunk) > 0 ==> (chunks_needed(total, chunk) - 1) * chunk < total,
{
    let q = total / chunk;
    let r = total % chunk;
    assert(total == q * chunk + r && r < chunk) by {
        vstd::arithmetic::div_mod::lemma_fundamental_div_mod(total as int, chunk as int);
        vstd::arithmetic::div_mod::lemma_mod_bound(total as int, chunk as int);
        assert(chunk * q == q * chunk) by (nonlinear_arith);
    }
    let n = chunks_needed(total, chunk);
    assert((q + 1) * chunk == q * chunk + chunk) by (nonlinear_arith);
    assert(q <= q * chunk) by (nonlinear_arith)
        requires
            chunk > 0,
            q >= 0,
    ;
    assert forall|k: nat| #[trigger] (k * chunk) < total implies k < n by {
        if k >= n {
            assert(k * chunk >= n * chunk) by (nonlinear_arith)
                requires
                    k >= n,
                    chunk > 0,
            ;
        }
    }
    if n > 0 {
        if r == 0 {
            assert((q - 1) * chunk == q * chunk - chunk) by (nonlinear_arith);
        } else {
            assert((n - 1) * chunk == q * chunk);
        }
    }
}

/// A text fits into `n` parts: their markers leave room in the budget, and so many chunks
/// of that room cover the text. A text that is split has two parts at least.
pub open spec fn fits_in(total: nat, budget: nat, n: nat) -> bool {
    &&& n >= 2
    &&& budget > marker_width(n)
    &&& chunks_needed(total, (budget - marker_width(n)) as nat) <= n
}

/// `n` is the least number of parts that a text fits into.
pub open spec fn is_fewest(total: nat, budget: nat, n: nat) -> bool {
    &&& fits_in(total, budget, n)
    &&& forall|m: nat| m < n ==> !#[trigger] fits_in(total, budget, m)
}

/// The size of a chunk and the number of chunks: for the fewest parts that the text fits
/// into. Nothing where it fits into no number of parts.
pub open spec fn plan_of(total: nat, budget: nat) -> Option<(nat, nat)> {
    if exists|n: nat| #[trigger] fits_in(total, budget, n) {
        let n = choose|n: nat| is_fewest(total, budget, n);
        let chunk = (budget - marker_width(n)) as nat;
        Some((chunk, chunks_needed(total, chunk)))
    } else {
        None
    }
}

/// Where a text fits into some number of parts there is a least one.
proof fn lemma_some_fewest(total: nat, budget: nat, n: nat)
    requires
        fits_in(total, budget, n),
    ensures
        exists|k: nat| k <= n && #[trigger] is_fewest(total, budget, k),
    decreases n,
{
    if exists|m: nat| m < n && #[trigger] fits_in(total, budget, m) {
        let m = choose|m: nat| m < n && #[trigger] fits_in(total, budget, m);
        lemma_some_fewest(total, budget, m);
    } else {
        assert(is_fewest(total, budget, n));
    }
}

/// The plan of a text that fits into `n` parts at the least.
proof fn lemma_plan_is(total: nat, budget: nat, n: nat)
    requires
        is_fewest(total, budget, n),
    ensures
        plan_of(total, budget) == Some(
            (
                (budget - marker_width(n)) as nat,
                chunks_needed(total, (budget - marker_width(n)) as nat),
            ),
        ),
{
    let k = choose|k: nat| is_fewest(total, budget, k);
    assert(is_fewest(total, budget, k));
    assert(fits_in(total, budget, k) && fits_in(total, budget, n));
    if k < n {
        assert(!fits_in(total, budget, k));
    } else if n < k {
        assert(!fits_in(total, budget, n));
    }
}

/// What holds of a plan: its chunks cover the text, and every part with its marker is
/// within the budget.
pub proof fn lemma_plan(total: nat, budget: nat)
    ensures
        plan_of(total, budget) matches Some((chunk, n)) ==> {
            &&& chunk > 0
            &&& n == chunks_needed(total, chunk)
            &&& chunk + marker_width(n) <= budget
        },
{
    if exists|n: nat| #[trigger] fits_in(total, budget, n) {
        let n = choose|n: nat| #[trigger] fits_in(total, budget, n);
        lemma_some_fewest(total, budget, n);
        let k = choose|k: nat| is_fewest(total, budget, k);
        lemma_plan_is(total, budget, k);
        lemma_width_grows(chunks_needed(total, (budget - marker_width(k)) as nat), k);
    }
}

/// Smaller chunks are no fewer.
proof fn lemma_smaller_chunks(total: nat, small: nat, large: nat)
    requires
        0 < small <= large,
    ensures
        chunks_needed(total, small) >= chunks_needed(total, large),
{
    let a = chunks_needed(total, small);
    let b = chunks_needed(total, large);
    lemma_chunks_needed(total, small);
    lemma_chunks_needed(total, large);
    if a < b {
        assert(a * small <= a * large) by (nonlinear_arith)
            requires
                small <= large,
                a >= 0,
        ;
        assert(a * large <= (b - 1) * large) by (nonlinear_arith)
            requires
                a <= b - 1,
                large > 0,
        ;
    }
}

/// Where a text makes more parts than it was planned for, it fits into no number of parts
/// in between.
proof fn lemma_no_fit_between(total: nat, budget: nat, parts: nat, m: nat)
    requires
        parts <= m,
        budget > marker_width(parts) ==> m < chunks_needed(
            total,
            (budget - marker_width(parts)) as nat,
        ),
    ensures
        !fits_in(total, budget, m),
{
    lemma_width_grows(parts, m);
    if budget > marker_width(m) {
        lemma_smaller_chunks(
            total,
            (budget - marker_width(m)) as nat,
            (budget - marker_width(parts)) as nat,
        );
    }
}

/// More parts never make a shorter marker.
proof fn lemma_width_grows(a: nat, b: nat)
    requires
        a <= b,
    ensures
        decimal(a).len() <= decimal(b).len(),
    decreases b,
{
    if b >= 10 {
        if a < 10 {
            lemma_decimal(b / 10);
        } else {
            lemma_width_grows(a / 10, b / 10);
        }
    }
}

/// The body of part `k` (from 0).
pub open spec fn part_body(text: Seq<char>, chunk: nat, k: int) -> Seq<char> {
    let from = k * chunk;
    let to = if (k + 1) * chunk <= text.len() {
        (k + 1) * chunk
    } else {
        text.len() as int
    };
    text.subrange(from, to)
}

/// The text of part `k` (from 0) of `n`.
pub open spec fn part_text(text: Seq<char>, chunk: nat, n: nat, k: int) -> Seq<char> {
    "[part "@ + decimal((k + 1) as nat) + "/"@ + decimal(n) + "] "@ + part_body(text, chunk, k)
}

/// The parts of an entry, if it is over the budget and the budget has room for a
/// marker.
pub open spec fn parts_of(entry: EntryModel, budget: nat) -> Option<Seq<EntryModel>> {
    if entry.text.len() <= budget {
        None
    } else {
        match plan_of(entry.text.len(), budget) {
            None => None,
            Some((chunk, n)) => Some(
                Seq::new(
                    n,
                    |k: int| EntryModel { text: part_text(entry.text, chunk, n, k), ..entry },
                ),
            ),
        }
    }
}

/// The decimal width of `n`.
pub fn digit_count(n: usize) -> (digits: usize)
    ensures
        digits == decimal(n as nat).len(),
        digits <= 20,
{
    let mut digits: usize = 1;
    let mut rest: usize = n / 10;
    proof {
        if n >= 10 {
            assert(decimal(n as nat).len() == decimal((n / 10) as nat).len() + 1);
        }
        lemma_width_bound(n as nat);
    }
    while rest > 0
        invariant
            decimal(n as nat).len() <= 20,
            rest == 0 ==> digits == decimal(n as nat).len(),
            rest > 0 ==> digits + decimal(rest as nat).len() == decimal(n as nat).len(),
        decreases rest,
    {
        proof {
            lemma_decimal(rest as nat);
            if rest >= 10 {
                assert(decimal(rest as nat).len() == decimal((rest / 10) as nat).len() + 1);
            }
        }
        digits = digits + 1;
        rest = rest / 10;
    }
    digits
}

proof fn lemma_width_bound(n: nat)
    requires
        n <= usize::MAX,
    ensures
        decimal(n).len() <= 20,
{
    assert(usize::MAX <= 18_446_744_073_709_551_615);
    assert(power10(20) == 100_000_000_000_000_000_000) by {
        reveal_with_fuel(power10, 21);
    }
    lemma_width_within(n, 20);
}

/// A number below a power of ten has no more digits than its exponent.
proof fn lemma_width_within(n: nat, digits: nat)
    requires
        digits >= 1,
        n < power10(digits),
    ensures
        decimal(n).len() <= digits,
    decreases digits,
{
    if n >= 10 {
        assert(power10(1) == 10) by {
            reveal_with_fuel(power10, 2);
        }
        assert(digits >= 2);
        assert(power10(digits) == 10 * power10((digits - 1) as nat));
        lemma_width_within(n / 10, (digits - 1) as nat);
    }
}

spec fn power10(digits: nat) -> nat
    decreases digits,
{
    if digits == 0 {
        1
    } else {
        10 * power10((digits - 1) as nat)
    }
}

/// The size of a chunk and the number of parts for a text of so many characters, so
/// that every part with its marker is within the budget, and no more parts than it takes.
/// Nothing where no number of parts will do.
pub fn chunk_plan(total_chars: usize, max_text_chars: usize) -> (plan: Option<(usize, usize)>)
    ensures
        match plan {
            Some((chunk, parts)) => plan_of(total_chars as nat, max_text_chars as nat) == Some(
                (chunk as nat, parts as nat),
            ),
            None => plan_of(total_chars as nat, max_text_chars as nat) is None,
        },
{
    let ghost total = total_chars as nat;
    let ghost budget = max_text_chars as nat;
    let mut parts: usize = 2;
    loop
        invariant
            total == total_chars,
            budget == max_text_chars,
            parts >= 2,
            forall|m: nat| m < parts ==> !#[trigger] fits_in(total, budget, m),
        decreases total_chars - parts,
    {
        let marker: usize = PART_MARKER_LITERAL_CHARS + 2 * digit_count(parts);
        if max_text_chars <= marker {
            proof {
                assert forall|m: nat| !#[trigger] fits_in(total, budget, m) by {
                    if m >= parts {
                        lemma_no_fit_between(total, budget, parts as nat, m);
                    }
                }
            }
            return None;
        }
        let chunk: usize = max_text_chars - marker;
        proof {
            lemma_chunks_needed(total_chars as nat, chunk as nat);
        }
        let needed: usize = if total_chars % chunk == 0 {
            total_chars / chunk
        } else {
            total_chars / chunk + 1
        };
        if needed <= parts {
            proof {
                assert(is_fewest(total, budget, parts as nat));
                lemma_plan_is(total, budget, parts as nat);
            }
            return Some((chunk, needed));
        }
        proof {
            assert forall|m: nat| m < needed implies !#[trigger] fits_in(total, budget, m) by {
                if m >= parts {
                    lemma_no_fit_between(total, budget, parts as nat, m);
                }
            }
        }
        parts = needed;
    }
}

/// The views of the entries.
pub open spec fn entry_views(entries: Seq<JournalEntry>) -> Seq<EntryModel> {
    entries.map_values(|e: JournalEntry| e@)
}

/// An entry that is over the budget as parts that are not. The parts' bodies in order
/// are the text, and everything else of the entry is in each part.
pub fn split_into_parts(entry: &JournalEntry, max_text_chars: usize) -> (parts: Option<
    Vec<JournalEntry>,
>)
    ensures
        match parts {
            Some(p) => parts_of(entry@, max_text_chars as nat) == Some(entry_views(p@)),
            None => parts_of(entry@, max_text_chars as nat) is None,
        },
{
    let chars = to_chars(entry.text.as_str());
    if chars.len() <= max_text_chars {
        return None;
    }
    match chunk_plan(chars.len(), max_text_chars) {
        None => None,
        Some((chunk, n)) => {
            let ghost text = entry@.text;
            proof {
                lemma_plan(text.len(), max_text_chars as nat);
                lemma_chunks_needed(text.len(), chunk as nat);
            }
            let mut parts: Vec<JournalEntry> = Vec::new();
            let mut start: usize = 0;
            let mut k: usize = 0;
            proof {
                assert(0 * chunk == 0);
            }
            while k < n
                invariant
                    k <= n,
                    chars@ == text,
                    text == entry@.text,
                    chunk > 0,
                    n as nat == chunks_needed(text.len(), chunk as nat),
                    (n - 1) * chunk < text.len(),
                    k < n ==> start == k * chunk,
                    parts.len() == k,
                    forall|j: int|
                        0 <= j < k ==> (#[trigger] parts@[j])@ == (EntryModel {
                            text: part_text(text, chunk as nat, n as nat, j),
                            ..entry@
                        }),
                decreases n - k,
            {
                proof {
                    assert(k * chunk <= (n - 1) * chunk) by (nonlinear_arith)
                        requires
                            k <= n - 1,
                            chunk > 0,
                    ;
                    assert((k + 1) * chunk == k * chunk + chunk) by (nonlinear_arith);
                }
                let end: usize = if chunk <= chars.len() - start {
                    start + chunk
                } else {
                    chars.len()
                };
                let body = from_range(&chars, start, end);
                let mut part = owned("[part ");
                push_decimal(&mut part, (k + 1) as u64);
                part.append("/");
                push_decimal(&mut part, n as u64);
                part.append("] ");
                part.append(body.as_str());
                proof {
                    assert(body@ =~= part_body(text, chunk as nat, k as int));
                }
                parts.push(
                    JournalEntry {
                        ts: entry.ts.clone(),
                        category: entry.category,
                        text: part,
                        project: copy_opt(&entry.project),
                        agent: copy_opt(&entry.agent),
                    },
                );
                start = end;
                k = k + 1;
                proof {
                    if k < n {
                        assert(k * chunk <= (n - 1) * chunk) by (nonlinear_arith)
                            requires
                                k <= n - 1,
                                chunk > 0,
                        ;
                    }
                }
            }
            proof {
                let spec_parts = parts_of(entry@, max_text_chars as nat)->0;
                assert(entry_views(parts@) =~= spec_parts);
            }
            Some(parts)
        },
    }
}

// ---------------------------------------------------------------------------
// The journal
// ---------------------------------------------------------------------------

/// A line of the journal after the split, with its texts as sequences.
pub ghost enum PlannedModel {
    /// A line that is carried over exactly.
    Carried(Seq<char>),
    /// A part to be written.
    Part(EntryModel),
}

/// A line of the journal after the split.
#[derive(Debug)]
pub enum PlannedLine {
    /// A line that is carried over exactly.
    Carried {
        /// The line.
        raw: String,
    },
    /// A part to be written.
    Part {
        /// The part.
        entry: JournalEntry,
    },
}

impl View for PlannedLine {
    type V = PlannedModel;

    open spec fn view(&self) -> PlannedModel {
        match self {
            PlannedLine::Carried { raw } => PlannedModel::Carried(raw@),
            PlannedLine::Part { entry } => PlannedModel::Part(entry@),
        }
    }
}

/// The models of the lines.
pub open spec fn planned_views(plan: Seq<PlannedLine>) -> Seq<PlannedModel> {
    plan.map_values(|l: PlannedLine| l@)
}

/// The line at `i` is split: it is an entry behind the last marker, over the budget.
pub open spec fn splits(all: Seq<LineModel>, budget: nat, i: int) -> bool {
    &&& all[i] is Entry
    &&& last_marker(all) matches Some(last) ==> i > last
    &&& parts_of(all[i]->Entry_0, budget) is Some
}

/// What becomes of the line at `i`.
pub open spec fn planned_for(all: Seq<LineModel>, budget: nat, i: int) -> Seq<PlannedModel> {
    if splits(all, budget, i) {
        parts_of(all[i]->Entry_0, budget)->0.map_values(|e: EntryModel| PlannedModel::Part(e))
    } else {
        seq![PlannedModel::Carried(all[i].raw())]
    }
}

/// What becomes of the first `n` lines.
pub open spec fn planned_upto(all: Seq<LineModel>, budget: nat, n: int) -> Seq<PlannedModel>
    decreases n,
{
    if n <= 0 {
        Seq::empty()
    } else {
        planned_upto(all, budget, n - 1) + planned_for(all, budget, n - 1)
    }
}

/// How many of the first `n` lines are split.
pub open spec fn split_count(all: Seq<LineModel>, budget: nat, n: int) -> nat
    decreases n,
{
    if n <= 0 {
        0
    } else {
        split_count(all, budget, n - 1) + if splits(all, budget, n - 1) {
            1nat
        } else {
            0nat
        }
    }
}

impl JournalStore {
    /// The journal with every unconsumed entry that is over the budget split into
    /// parts, in place and in order; every other line is carried over exactly. Says how
    /// many entries were split; where none was, nothing is to be rewritten.
    pub fn split_oversized_unconsumed(&self, max_text_chars: usize) -> (outcome: (
        usize,
        Vec<PlannedLine>,
    ))
        ensures
            outcome.0 == split_count(self@, max_text_chars as nat, self@.len() as int),
            planned_views(outcome.1@) == planned_upto(
                self@,
                max_text_chars as nat,
                self@.len() as int,
            ),
    {
        let lines = self.all_lines();
        let ghost all = self@;
        let ghost budget = max_text_chars as nat;
        proof {
            assert(all.take(lines.len() as int) =~= all);
        }
        let last = marker_before(lines, lines.len());
        let mut split: usize = 0;
        let mut plan: Vec<PlannedLine> = Vec::new();
        let mut i: usize = 0;
        proof {
            assert(planned_views(plan@) =~= Seq::empty());
        }
        while i < lines.len()
            invariant
                i <= lines.len(),
                all == models(lines@),
                budget == max_text_chars as nat,
                match last {
                    Some(l) => last_marker(all) == Some(l as int),
                    None => last_marker(all) is None,
                },
                split == split_count(all, budget, i as int),
                split <= i,
                planned_views(plan@) == planned_upto(all, budget, i as int),
            decreases lines.len() - i,
        {
            let line = &lines[i];
            proof {
                assert(all[i as int] == line@);
            }
            let parts: Option<Vec<JournalEntry>> = match line {
                JournalLine::Entry { entry, .. } => if crate::journal::is_unconsumed(i, last) {
                    split_into_parts(entry, max_text_chars)
                } else {
                    None
                },
                _ => None,
            };
            match parts {
                Some(parts) => {
                    proof {
                        assert(splits(all, budget, i as int));
                    }
                    push_parts(&mut plan, parts);
                    split = split + 1;
                },
                None => {
                    proof {
                        assert(!splits(all, budget, i as int));
                    }
                    let ghost before = planned_views(plan@);
                    plan.push(PlannedLine::Carried { raw: owned(line.raw()) });
                    proof {
                        assert(planned_views(plan@) =~= before + seq![
                            PlannedModel::Carried(line@.raw()),
                        ]);
                    }
                },
            }
            i = i + 1;
        }
        (split, plan)
    }
}

/// Adds the parts to the plan.
fn push_parts(plan: &mut Vec<PlannedLine>, parts: Vec<JournalEntry>)
    ensures
        planned_views(final(plan)@) == planned_views(old(plan)@) + entry_views(parts@).map_values(
            |e: EntryModel| PlannedModel::Part(e),
        ),
{
    let ghost all = entry_views(parts@);
    let ghost before = planned_views(plan@);
    let ghost as_part = |e: EntryModel| PlannedModel::Part(e);
    let mut i: usize = 0;
    proof {
        assert(planned_views(plan@) =~= before + all.take(0).map_values(as_part));
    }
    while i < parts.len()
        invariant
            i <= parts.len(),
            all == entry_views(parts@),
            as_part == (|e: EntryModel| PlannedModel::Part(e)),
            planned_views(plan@) == before + all.take(i as int).map_values(as_part),
        decreases parts.len() - i,
    {
        let ghost sofar = planned_views(plan@);
        plan.push(PlannedLine::Part { entry: parts[i].copy() });
        proof {
            assert(planned_views(plan@) =~= sofar.push(PlannedModel::Part(parts@[i as int]@)));
            assert(all.take(i + 1).map_values(as_part) =~= all.take(i as int).map_values(
                as_part,
            ).push(PlannedModel::Part(parts@[i as int]@)));
            assert(planned_views(plan@) =~= before + all.take(i + 1).map_values(as_part));
        }
        i = i + 1;
    }
    proof {
        assert(all.take(i as int) =~= all);
    }
}

// ---------------------------------------------------------------------------
// Laws
// ---------------------------------------------------------------------------

/// The bodies of the first `k` parts, one after the other.
pub open spec fn bodies(text: Seq<char>, chunk: nat, k: nat) -> Seq<char>
    decreases k,
{
    if k == 0 {
        Seq::empty()
    } else {
        bodies(text, chunk, (k - 1) as nat) + part_body(text, chunk, k - 1)
    }
}

/// Nothing is lost by a split: the bodies of the parts, one after the other, are the
/// text.
pub proof fn law_parts_make_up_the_text(entry: EntryModel, budget: nat)
    requires
        parts_of(entry, budget) is Some,
    ensures
        plan_of(entry.text.len(), budget) matches Some((chunk, n)) && bodies(
            entry.text,
            chunk,
            n,
        ) == entry.text && parts_of(entry, budget)->0.len() == n,
{
    let (chunk, n) = plan_of(entry.text.len(), budget)->0;
    let text = entry.text;
    lemma_plan(text.len(), budget);
    lemma_chunks_needed(text.len(), chunk);
    if n > 0 {
        lemma_bodies(text, chunk, n);
    } else {
        assert(0 * chunk == 0) by (nonlinear_arith);
    }
}

proof fn lemma_bodies(text: Seq<char>, chunk: nat, k: nat)
    requires
        chunk > 0,
        k > 0,
        (k - 1) * chunk < text.len(),
    ensures
        bodies(text, chunk, k) == (if k * chunk <= text.len() {
            text.take((k * chunk) as int)
        } else {
            text
        }),
    decreases k,
{
    assert((k - 1) * chunk + chunk == k * chunk) by (nonlinear_arith);
    if k == 1 {
        assert(0 * chunk == 0);
        assert(bodies(text, chunk, 0) =~= Seq::empty());
        assert(bodies(text, chunk, 1) =~= part_body(text, chunk, 0));
    } else {
        assert((k - 2) * chunk < (k - 1) * chunk) by (nonlinear_arith)
            requires
                chunk > 0,
                k > 1,
        ;
        lemma_bodies(text, chunk, (k - 1) as nat);
        assert(bodies(text, chunk, (k - 1) as nat) == text.take((k - 1) * chunk));
    }
    assert(bodies(text, chunk, k) =~= (if k * chunk <= text.len() {
        text.take((k * chunk) as int)
    } else {
        text
    }));
}

/// A split is final: every part is within the budget, its marker included, so no part
/// is split again.
pub proof fn law_parts_are_not_split_again(entry: EntryModel, budget: nat, k: int)
    requires
        parts_of(entry, budget) is Some,
        0 <= k < parts_of(entry, budget)->0.len(),
    ensures
        parts_of(entry, budget)->0[k].text.len() <= budget,
        parts_of(parts_of(entry, budget)->0[k], budget) is None,
{
    let (chunk, n) = plan_of(entry.text.len(), budget)->0;
    let text = entry.text;
    lemma_plan(text.len(), budget);
    lemma_chunks_needed(text.len(), chunk);
    reveal_strlit("[part ");
    reveal_strlit("/");
    reveal_strlit("] ");
    lemma_width_grows((k + 1) as nat, n);
    assert(k * chunk <= (n - 1) * chunk) by (nonlinear_arith)
        requires
            k <= n - 1,
            chunk > 0,
    ;
    assert((k + 1) * chunk == k * chunk + chunk) by (nonlinear_arith);
    assert(part_body(text, chunk, k).len() <= chunk);
}

/// A part says where it comes from: everything but the text is the entry's.
pub proof fn law_parts_keep_their_origin(entry: EntryModel, budget: nat, k: int)
    requires
        parts_of(entry, budget) is Some,
        0 <= k < parts_of(entry, budget)->0.len(),
    ensures
        parts_of(entry, budget)->0[k] == (EntryModel {
            text: parts_of(entry, budget)->0[k].text,
            ..entry
        }),
{
}

/// An entry within the budget is left alone, and so is every line that is not an entry
/// behind the last marker.
pub proof fn law_only_long_fresh_entries_are_split(all: Seq<LineModel>, budget: nat, i: int)
    requires
        0 <= i < all.len(),
    ensures
        !(all[i] is Entry) || all[i]->Entry_0.text.len() <= budget || (last_marker(
            all,
        ) matches Some(last) && i <= last) ==> planned_for(all, budget, i) == seq![
            PlannedModel::Carried(all[i].raw()),
        ],
{
}

/// The line at `i` of a journal that was split, as it is read again: the parts of an entry
/// that was split, each with the text that it was written as, or the line itself.
pub open spec fn reread_for(
    all: Seq<LineModel>,
    budget: nat,
    written: spec_fn(EntryModel) -> Seq<char>,
    i: int,
) -> Seq<LineModel> {
    if splits(all, budget, i) {
        parts_of(all[i]->Entry_0, budget)->0.map_values(
            |e: EntryModel| LineModel::Entry(e, written(e)),
        )
    } else {
        seq![all[i]]
    }
}

/// The first `n` lines of a journal that was split, as they are read again.
pub open spec fn reread_upto(
    all: Seq<LineModel>,
    budget: nat,
    written: spec_fn(EntryModel) -> Seq<char>,
    n: int,
) -> Seq<LineModel>
    decreases n,
{
    if n <= 0 {
        Seq::empty()
    } else {
        reread_upto(all, budget, written, n - 1) + reread_for(all, budget, written, n - 1)
    }
}

/// The texts of the lines of a plan, the parts as they are written.
pub open spec fn planned_texts(
    plan: Seq<PlannedModel>,
    written: spec_fn(EntryModel) -> Seq<char>,
) -> Seq<Seq<char>> {
    plan.map_values(
        |l: PlannedModel|
            match l {
                PlannedModel::Carried(raw) => raw,
                PlannedModel::Part(e) => written(e),
            },
    )
}

/// What is read again is what the plan writes.
proof fn lemma_reread_texts(
    all: Seq<LineModel>,
    budget: nat,
    written: spec_fn(EntryModel) -> Seq<char>,
    n: int,
)
    requires
        0 <= n <= all.len(),
    ensures
        raws(reread_upto(all, budget, written, n)) == planned_texts(
            planned_upto(all, budget, n),
            written,
        ),
    decreases n,
{
    if n > 0 {
        lemma_reread_texts(all, budget, written, n - 1);
        let a = reread_upto(all, budget, written, n - 1);
        let b = reread_for(all, budget, written, n - 1);
        let p = planned_upto(all, budget, n - 1);
        let q = planned_for(all, budget, n - 1);
        assert(raws(b) =~= planned_texts(q, written));
        assert(raws(a + b) =~= raws(a) + raws(b));
        assert(planned_texts(p + q, written) =~= planned_texts(p, written) + planned_texts(
            q,
            written,
        ));
    } else {
        assert(raws(reread_upto(all, budget, written, n)) =~= planned_texts(
            planned_upto(all, budget, n),
            written,
        ));
    }
}

/// The line is no marker, and no entry that could be split.
spec fn settled(line: LineModel, budget: nat) -> bool {
    &&& !(line is Marker)
    &&& line is Entry ==> parts_of(line->Entry_0, budget) is None
}

/// Up to the last marker nothing changes; behind it every line is settled.
proof fn lemma_reread(
    all: Seq<LineModel>,
    budget: nat,
    written: spec_fn(EntryModel) -> Seq<char>,
    n: int,
)
    requires
        0 <= n <= all.len(),
    ensures
        ({
            let next = reread_upto(all, budget, written, n);
            let kept = match last_marker(all) {
                Some(last) => last + 1,
                None => 0,
            };
            if n <= kept {
                next == all.take(n)
            } else {
                &&& next.len() >= kept
                &&& next.take(kept) == all.take(kept)
                &&& forall|j: int| kept <= j < next.len() ==> settled(#[trigger] next[j], budget)
            }
        }),
    decreases n,
{
    lemma_last_marker(all);
    let kept = match last_marker(all) {
        Some(last) => last + 1,
        None => 0,
    };
    if n > 0 {
        lemma_reread(all, budget, written, n - 1);
        let before = reread_upto(all, budget, written, n - 1);
        let more = reread_for(all, budget, written, n - 1);
        let next = reread_upto(all, budget, written, n);
        if n <= kept {
            assert(!splits(all, budget, n - 1));
            assert(next =~= all.take(n));
        } else {
            assert(before.len() >= kept);
            assert(next.take(kept) =~= all.take(kept)) by {
                assert(before.take(kept) =~= all.take(kept));
            }
            assert forall|j: int| kept <= j < next.len() implies settled(
                #[trigger] next[j],
                budget,
            ) by {
                if j < before.len() {
                    assert(next[j] == before[j]);
                } else if splits(all, budget, n - 1) {
                    let k = j - before.len();
                    law_parts_are_not_split_again(all[n - 1]->Entry_0, budget, k);
                    assert(next[j] == more[k]);
                } else {
                    assert(next[j] == all[n - 1]);
                }
            }
        }
    } else {
        assert(reread_upto(all, budget, written, n) =~= all.take(n));
        assert(all.take(0) =~= Seq::empty());
    }
}

proof fn lemma_nothing_to_split(all: Seq<LineModel>, budget: nat, n: int)
    requires
        0 <= n <= all.len(),
        forall|i: int| 0 <= i < all.len() ==> !#[trigger] splits(all, budget, i),
    ensures
        split_count(all, budget, n) == 0,
        planned_upto(all, budget, n) == raws(all.take(n)).map_values(
            |raw: Seq<char>| PlannedModel::Carried(raw),
        ),
    decreases n,
{
    if n > 0 {
        lemma_nothing_to_split(all, budget, n - 1);
        assert(!splits(all, budget, n - 1));
    }
    assert(planned_upto(all, budget, n) =~= raws(all.take(n)).map_values(
        |raw: Seq<char>| PlannedModel::Carried(raw),
    ));
}

/// A split is done once. Read again, the journal holds the lines that the plan wrote, the
/// parts in whatever text they were written as; everything up to the last marker is as it
/// was. A second split of it splits nothing and carries every line over.
pub proof fn law_a_second_split_changes_nothing(
    all: Seq<LineModel>,
    budget: nat,
    written: spec_fn(EntryModel) -> Seq<char>,
)
    ensures
        ({
            let next = reread_upto(all, budget, written, all.len() as int);
            &&& raws(next) == planned_texts(
                planned_upto(all, budget, all.len() as int),
                written,
            )
            &&& last_marker(all) matches Some(last) ==> next.take(last + 1) == all.take(last + 1)
            &&& split_count(next, budget, next.len() as int) == 0
            &&& planned_texts(planned_upto(next, budget, next.len() as int), written) == raws(next)
        }),
{
    let n = all.len() as int;
    let next = reread_upto(all, budget, written, n);
    lemma_reread_texts(all, budget, written, n);
    lemma_reread(all, budget, written, n);
    lemma_last_marker(all);
    lemma_last_marker(next);
    let kept = match last_marker(all) {
        Some(last) => last + 1,
        None => 0,
    };
    if n <= kept {
        assert(all.take(n) =~= all);
    }
    assert(kept <= next.len());
    assert(next.take(kept) =~= all.take(kept));
    assert forall|i: int| 0 <= i < next.len() implies !#[trigger] splits(next, budget, i) by {
        if i < kept {
            let last = kept - 1;
            assert(next.take(kept)[last] == all.take(kept)[last]);
            assert(next[last] is Marker);
        } else {
            assert(n > kept);
            assert(settled(next[i], budget));
        }
    }
    lemma_nothing_to_split(next, budget, next.len() as int);
    assert(next.take(next.len() as int) =~= next);
    assert(planned_texts(planned_upto(next, budget, next.len() as int), written) =~= raws(next));
}

/// A split makes no more parts than it has to, and fills them: a part of the room that the
/// widest marker leaves holds as much text as the budget allows.
pub proof fn law_parts_fill_the_budget(entry: EntryModel, budget: nat)
    requires
        parts_of(entry, budget) is Some,
    ensures
        plan_of(entry.text.len(), budget) matches Some((chunk, n)) && n >= 2 && chunk + 9 + 2
            * decimal(n).len() == budget && n == parts_of(entry, budget)->0.len(),
        forall|m: nat|
            2 <= m < parts_of(entry, budget)->0.len() ==> !#[trigger] fits_in(
                entry.text.len(),
                budget,
                m,
            ),
{
    let total = entry.text.len();
    let some = choose|n: nat| #[trigger] fits_in(total, budget, n);
    lemma_some_fewest(total, budget, some);
    let k = choose|k: nat| is_fewest(total, budget, k);
    lemma_plan_is(total, budget, k);
    let chunk = (budget - marker_width(k)) as nat;
    let n = chunks_needed(total, chunk);
    lemma_chunks_needed(total, chunk);
    assert(n >= 2) by {
        if n == 0 {
            assert(0 * chunk == 0) by (nonlinear_arith);
        } else if n == 1 {
            assert(1 * chunk == chunk) by (nonlinear_arith);
        }
    }
    if n < k {
        lemma_width_grows(n, k);
        lemma_smaller_chunks(total, chunk, (budget - marker_width(n)) as nat);
        assert(fits_in(total, budget, n));
    }
}

} // verus!
