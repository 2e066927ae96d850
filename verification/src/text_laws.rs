//! What the helpers on texts do, in terms of characters.

use vstd::prelude::*;
use crate::journal::{at_line_start, text_of};
use crate::journal_laws::lemma_lines_concat;
use crate::run_refs::normalized_ref;
use crate::slug_laws::{lemma_one_run, lemma_runs_parted};
use crate::text::{is_alnum, is_digit, is_hex, is_white_space, lower, lowered};
use crate::words::{
    collapse, ends_with, join, lemma_run_len, lemma_run_len_is, lines, non_space, not_char, only,
    run_len, runs, space, split, starts_with, strip_cr, strip_start, trim, trim_end,
};

verus! {

// ---------------------------------------------------------------------------
// Characters
// ---------------------------------------------------------------------------

/// The blank, the tab and the line ends are white space; of the printed characters of
/// ASCII only the blank is.
pub proof fn law_what_white_space_is(c: char)
    ensures
        is_white_space(' '),
        is_white_space('\t'),
        is_white_space('\n'),
        is_white_space('\r'),
        '!' <= c <= '~' ==> !is_white_space(c),
{
}

/// Digits are letters-or-digits and hexadecimal, and so are the first six letters in either
/// case; the other letters are not hexadecimal.
pub proof fn law_what_digits_and_letters_are(c: char)
    ensures
        '0' <= c <= '9' ==> is_digit(c) && is_alnum(c) && is_hex(c),
        'a' <= c <= 'f' || 'A' <= c <= 'F' ==> !is_digit(c) && is_alnum(c) && is_hex(c),
        'g' <= c <= 'z' || 'G' <= c <= 'Z' ==> !is_digit(c) && is_alnum(c) && !is_hex(c),
        !('0' <= c <= '9') && !('a' <= c <= 'z') && !('A' <= c <= 'Z') ==> !is_digit(c)
            && !is_alnum(c) && !is_hex(c),
{
}

/// A capital of ASCII has its small letter; every other character is its own.
pub proof fn law_how_letters_are_lowered(s: Seq<char>, i: int)
    requires
        0 <= i < s.len(),
    ensures
        lowered(s).len() == s.len(),
        'A' <= s[i] <= 'Z' ==> lowered(s)[i] as u32 == s[i] as u32 + ('a' as u32 - 'A' as u32),
        !('A' <= s[i] <= 'Z') ==> lowered(s)[i] == s[i],
{
    assert(lowered(s)[i] == lower(s[i]));
}

// ---------------------------------------------------------------------------
// Ends
// ---------------------------------------------------------------------------

/// Trimming takes white space off both ends and nothing else: what is left is a stretch of
/// the text that neither begins nor ends with white space, and only white space stands
/// around it.
pub proof fn law_what_is_trimmed(s: Seq<char>) -> (at: (int, int))
    ensures
        0 <= at.0 <= at.1 <= s.len(),
        trim(s) == s.subrange(at.0, at.1),
        forall|i: int| 0 <= i < at.0 ==> is_white_space(#[trigger] s[i]),
        forall|i: int| at.1 <= i < s.len() ==> is_white_space(#[trigger] s[i]),
        trim(s).len() > 0 ==> !is_white_space(trim(s)[0]) && !is_white_space(trim(s).last()),
{
    lemma_run_len(s, space());
    let k = run_len(s, space()) as int;
    let t = strip_start(s, space());
    assert forall|i: int| 0 <= i < k implies is_white_space(#[trigger] s[i]) by {
        assert(space()(s[i]));
    }
    let n = lemma_trim_end(t);
    assert(t.take(n) =~= s.subrange(k, k + n));
    assert forall|i: int| k + n <= i < s.len() implies is_white_space(#[trigger] s[i]) by {
        assert(t[i - k] == s[i]);
    }
    if n > 0 {
        assert(trim(s)[0] == s[k]);
        assert(!space()(s[k]));
    }
    (k, k + n)
}

proof fn lemma_trim_end(s: Seq<char>) -> (n: int)
    ensures
        0 <= n <= s.len(),
        trim_end(s) == s.take(n),
        forall|i: int| n <= i < s.len() ==> is_white_space(#[trigger] s[i]),
        n > 0 ==> !is_white_space(s[n - 1]),
    decreases s.len(),
{
    if s.len() > 0 && is_white_space(s.last()) {
        let init = s.drop_last();
        let n = lemma_trim_end(init);
        assert(init.take(n) =~= s.take(n));
        assert forall|i: int| n <= i < s.len() implies is_white_space(#[trigger] s[i]) by {
            if i < init.len() {
                assert(init[i] == s[i]);
            }
        }
        if n > 0 {
            assert(init[n - 1] == s[n - 1]);
        }
        n
    } else {
        assert(s.take(s.len() as int) =~= s);
        s.len() as int
    }
}

/// A text begins and ends with what is put before and behind anything.
pub proof fn law_what_a_text_begins_and_ends_with(a: Seq<char>, b: Seq<char>)
    ensures
        starts_with(a + b, a),
        ends_with(a + b, b),
        starts_with(b, a) ==> exists|rest: Seq<char>| b == #[trigger] (a + rest),
        ends_with(b, a) ==> exists|rest: Seq<char>| b == #[trigger] (rest + a),
{
    assert((a + b).take(a.len() as int) =~= a);
    assert((a + b).skip((a + b).len() - b.len()) =~= b);
    if starts_with(b, a) {
        assert(b =~= a + b.skip(a.len() as int));
    }
    if ends_with(b, a) {
        assert(b =~= b.take(b.len() - a.len()) + a);
    }
}

// ---------------------------------------------------------------------------
// Lines
// ---------------------------------------------------------------------------

/// The text holds no line feed and does not end in a carriage return.
pub open spec fn is_one_line(s: Seq<char>) -> bool {
    &&& forall|i: int| 0 <= i < s.len() ==> #[trigger] s[i] != '\n'
    &&& s.len() > 0 ==> s.last() != '\r'
}

proof fn lemma_one_line(line: Seq<char>)
    requires
        is_one_line(line),
    ensures
        lines(line.push('\n')) == seq![line],
        lines(line + seq!['\r', '\n']) == seq![line],
        line.len() > 0 ==> lines(line) == seq![line],
{
    let keep = not_char('\n');
    let none = Seq::<char>::empty();
    assert(lines(none) == Seq::<Seq<char>>::empty());
    let n = line.len() as int;
    let a = line.push('\n');
    assert forall|j: int| 0 <= j < n implies keep(#[trigger] a[j]) by {
        assert(a[j] == line[j]);
    }
    lemma_run_len_is(a, keep, n);
    assert(a.take(n) =~= line);
    assert(a.skip(n + 1) =~= none);
    assert(lines(a) =~= seq![line]);
    let b = line + seq!['\r', '\n'];
    assert forall|j: int| 0 <= j < n + 1 implies keep(#[trigger] b[j]) by {
        if j < n {
            assert(b[j] == line[j]);
        }
    }
    assert(b[n + 1] == '\n');
    lemma_run_len_is(b, keep, n + 1);
    assert(b.take(n + 1) =~= line.push('\r'));
    assert(line.push('\r').drop_last() =~= line);
    assert(strip_cr(b.take(n + 1)) == line);
    assert(b.skip(n + 2) =~= none);
    assert(lines(b) =~= seq![line]);
    if line.len() > 0 {
        assert forall|j: int| 0 <= j < n implies keep(#[trigger] line[j]) by {}
        lemma_run_len_is(line, keep, n);
    }
}

/// The lines of a text that is written line by line are those lines, blank ones too.
pub proof fn law_lines_are_read_as_they_are_written(all: Seq<Seq<char>>)
    requires
        forall|i: int| 0 <= i < all.len() ==> is_one_line(#[trigger] all[i]),
    ensures
        lines(text_of(all)) == all,
    decreases all.len(),
{
    if all.len() == 0 {
        assert(lines(text_of(all)) == Seq::<Seq<char>>::empty());
        assert(all =~= Seq::empty());
    } else {
        let init = all.drop_last();
        let last = all.last();
        assert forall|i: int| 0 <= i < init.len() implies is_one_line(#[trigger] init[i]) by {
            assert(init[i] == all[i]);
        }
        law_lines_are_read_as_they_are_written(init);
        assert(is_one_line(all[all.len() - 1]));
        lemma_one_line(last);
        assert(at_line_start(text_of(init))) by {
            if init.len() > 0 {
                let t = text_of(init);
                assert(t == text_of(init.drop_last()) + init.last().push('\n'));
                assert(t.last() == '\n');
            }
        }
        lemma_lines_concat(text_of(init), last.push('\n'));
        assert(lines(text_of(all)) =~= init.push(last));
        assert(init.push(last) =~= all);
    }
}

/// One more line is read whichever way it ends: with a line feed, with a carriage return
/// and a line feed, or with the end of the text, unless it is empty then.
pub proof fn law_how_a_line_ends(content: Seq<char>, line: Seq<char>)
    requires
        at_line_start(content),
        is_one_line(line),
    ensures
        lines(content + line.push('\n')) == lines(content).push(line),
        lines(content + (line + seq!['\r', '\n'])) == lines(content).push(line),
        line.len() > 0 ==> lines(content + line) == lines(content).push(line),
        lines(content + Seq::<char>::empty()) == lines(content),
{
    lemma_one_line(line);
    lemma_lines_concat(content, line.push('\n'));
    lemma_lines_concat(content, line + seq!['\r', '\n']);
    lemma_lines_concat(content, line);
    assert(content + Seq::<char>::empty() =~= content);
    assert(lines(content) + seq![line] =~= lines(content).push(line));
}

// ---------------------------------------------------------------------------
// Pieces
// ---------------------------------------------------------------------------

/// One more part comes behind one more separator; a single part stands alone.
pub proof fn law_how_parts_are_joined(parts: Seq<Seq<char>>, more: Seq<char>, sep: Seq<char>)
    ensures
        join(Seq::empty(), sep).len() == 0,
        join(seq![more], sep) == more,
        parts.len() > 0 ==> join(parts.push(more), sep) == join(parts, sep) + sep + more,
{
    assert(parts.push(more).drop_last() =~= parts);
}

/// The pieces of a text, joined by the separator again, are the text; no piece holds the
/// separator.
pub proof fn law_pieces_make_up_the_text(s: Seq<char>, c: char)
    ensures
        split(s, c).len() > 0,
        join_from(split(s, c), c) == s,
        forall|k: int, i: int|
            0 <= k < split(s, c).len() && 0 <= i < split(s, c)[k].len() ==> (#[trigger] split(
                s,
                c,
            )[k][i]) != c,
    decreases s.len(),
{
    let keep = not_char(c);
    lemma_run_len(s, keep);
    let k = run_len(s, keep) as int;
    let parts = split(s, c);
    if k >= s.len() {
        assert forall|x: int, i: int| 0 <= x < parts.len() && 0 <= i < parts[x].len() implies (
        #[trigger] parts[x][i]) != c by {
            assert(keep(s[i]));
        }
    } else {
        let rest = split(s.skip(k + 1), c);
        law_pieces_make_up_the_text(s.skip(k + 1), c);
        assert(parts.drop_first() =~= rest);
        assert(parts[0] == s.take(k));
        assert(s =~= s.take(k) + seq![c] + s.skip(k + 1));
        assert forall|x: int, i: int| 0 <= x < parts.len() && 0 <= i < parts[x].len() implies (
        #[trigger] parts[x][i]) != c by {
            if x == 0 {
                assert(parts[0][i] == s[i]);
                assert(keep(s[i]));
            } else {
                assert(parts[x] == rest[x - 1]);
                assert(rest[x - 1][i] != c);
            }
        }
    }
}

/// The parts one after the other, with the separator between neighbours.
pub open spec fn join_from(parts: Seq<Seq<char>>, c: char) -> Seq<char>
    decreases parts.len(),
{
    if parts.len() == 0 {
        Seq::empty()
    } else if parts.len() == 1 {
        parts[0]
    } else {
        parts[0] + seq![c] + join_from(parts.drop_first(), c)
    }
}

// ---------------------------------------------------------------------------
// Words
// ---------------------------------------------------------------------------

/// The text is not empty and holds no white space.
pub open spec fn is_word(s: Seq<char>) -> bool {
    s.len() > 0 && forall|i: int| 0 <= i < s.len() ==> !is_white_space(#[trigger] s[i])
}

/// The text is white space alone.
pub open spec fn is_gap(s: Seq<char>) -> bool {
    forall|i: int| 0 <= i < s.len() ==> is_white_space(#[trigger] s[i])
}

proof fn lemma_gap_has_no_runs(gap: Seq<char>)
    requires
        is_gap(gap),
    ensures
        runs(gap, non_space()).len() == 0,
    decreases gap.len(),
{
    if gap.len() > 0 {
        assert(is_white_space(gap[0]));
        let rest = gap.drop_first();
        assert forall|i: int| 0 <= i < rest.len() implies is_white_space(#[trigger] rest[i]) by {
            assert(rest[i] == gap[i + 1]);
        }
        lemma_gap_has_no_runs(rest);
    }
}

/// White space parts words: the words before it and those behind it.
proof fn lemma_parted(a: Seq<char>, gap: Seq<char>, b: Seq<char>)
    requires
        is_gap(gap),
        gap.len() > 0,
    ensures
        runs(a + gap + b, non_space()) == runs(a, non_space()) + runs(b, non_space()),
    decreases gap.len(),
{
    let c = gap[0];
    let rest = gap.drop_first();
    assert(is_white_space(gap[0]));
    lemma_runs_parted(a, c, rest + b, non_space());
    assert(a.push(c) + (rest + b) =~= a + gap + b);
    if rest.len() > 0 {
        assert forall|i: int| 0 <= i < rest.len() implies is_white_space(#[trigger] rest[i]) by {
            assert(rest[i] == gap[i + 1]);
        }
        lemma_parted(Seq::empty(), rest, b);
        assert(Seq::<char>::empty() + rest + b =~= rest + b);
        assert(runs(Seq::<char>::empty(), non_space()) == Seq::<Seq<char>>::empty());
        assert(runs(rest + b, non_space()) =~= runs(b, non_space()));
    } else {
        assert(rest + b =~= b);
    }
}

/// Collapsing leaves one blank wherever white space stood between words, and none at the
/// ends; the words stay as they are and in their order.
pub proof fn law_how_white_space_collapses(a: Seq<char>, gap: Seq<char>, word: Seq<char>)
    requires
        is_gap(gap),
        gap.len() > 0,
        is_word(word),
    ensures
        collapse(gap).len() == 0,
        collapse(word) == word,
        collapse(gap + word) == word,
        collapse(word + gap) == word,
        collapse(a).len() > 0 ==> collapse(a + gap + word) == collapse(a) + seq![' '] + word,
{
    reveal_strlit(" ");
    assert(" "@ =~= seq![' ']);
    let none = Seq::<char>::empty();
    let keep = non_space();
    assert(runs(none, keep) == Seq::<Seq<char>>::empty());
    assert forall|i: int| 0 <= i < word.len() implies keep(#[trigger] word[i]) by {}
    lemma_one_run(word, keep);
    lemma_gap_has_no_runs(gap);
    lemma_parted(none, gap, word);
    assert(none + gap + word =~= gap + word);
    assert(runs(gap + word, keep) =~= seq![word]);
    lemma_parted(word, gap, none);
    assert(word + gap + none =~= word + gap);
    assert(runs(word + gap, keep) =~= seq![word]);
    lemma_parted(a, gap, word);
    let parts = runs(a, keep);
    assert(runs(a + gap + word, keep) =~= parts.push(word));
    if collapse(a).len() > 0 {
        law_how_parts_are_joined(parts, word, " "@);
    }
}

/// A word that does not begin with `#` is its own reference, with any number of `#`s before
/// it and any white space around both.
pub proof fn law_a_reference_is_bare(
    lead: Seq<char>,
    hashes: Seq<char>,
    word: Seq<char>,
    trail: Seq<char>,
)
    requires
        is_gap(lead),
        is_gap(trail),
        forall|i: int| 0 <= i < hashes.len() ==> #[trigger] hashes[i] == '#',
        is_word(word),
        word[0] != '#',
    ensures
        normalized_ref(lead + (hashes + word) + trail) == Some(word),
{
    let whole = hashes + word;
    assert(is_word(whole)) by {
        assert forall|i: int| 0 <= i < whole.len() implies !is_white_space(#[trigger] whole[i]) by {
            if i < hashes.len() {
                assert(whole[i] == hashes[i]);
            } else {
                assert(whole[i] == word[i - hashes.len()]);
            }
        }
    }
    let keep = non_space();
    let none = Seq::<char>::empty();
    assert(runs(none, keep) == Seq::<Seq<char>>::empty());
    assert forall|i: int| 0 <= i < whole.len() implies keep(#[trigger] whole[i]) by {}
    lemma_one_run(whole, keep);
    let all = lead + whole + trail;
    // The white space behind the word, then that before it.
    assert(runs(all, keep) =~= runs(lead + whole, keep)) by {
        if trail.len() > 0 {
            lemma_parted(lead + whole, trail, none);
            assert(lead + whole + trail + none =~= all);
        } else {
            assert(all =~= lead + whole);
        }
    }
    assert(runs(lead + whole, keep) =~= seq![whole]) by {
        if lead.len() > 0 {
            lemma_parted(none, lead, whole);
            assert(none + lead + whole =~= lead + whole);
        } else {
            assert(lead + whole =~= whole);
        }
    }
    assert(collapse(all) == whole);
    let hash = only('#');
    assert forall|i: int| 0 <= i < hashes.len() implies hash(#[trigger] whole[i]) by {
        assert(whole[i] == hashes[i]);
    }
    assert(whole[hashes.len() as int] == word[0]);
    lemma_run_len_is(whole, hash, hashes.len() as int);
    assert(strip_start(whole, hash) =~= word);
    let at = law_what_is_trimmed(word);
    assert(at.0 == 0) by {
        if at.0 > 0 {
            assert(is_white_space(word[0]));
        }
    }
    assert(at.1 == word.len()) by {
        if at.1 < word.len() {
            assert(is_white_space(word[word.len() - 1]));
        }
    }
    assert(word.subrange(0, word.len() as int) =~= word);
}

} // verus!
