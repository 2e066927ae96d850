//! Runs, joins, trims, searches and lines of text.

use vstd::prelude::*;
use crate::text::{from_range, is_white_space, single_line, white_space};

verus! {

// ---------------------------------------------------------------------------
// Runs of kept characters
// ---------------------------------------------------------------------------

/// How many kept characters the text starts with.
pub open spec fn run_len(s: Seq<char>, keep: spec_fn(char) -> bool) -> nat
    decreases s.len(),
{
    if s.len() == 0 || !keep(s[0]) {
        0
    } else {
        1 + run_len(s.drop_first(), keep)
    }
}

/// The maximal runs of kept characters, in order.
pub open spec fn runs(s: Seq<char>, keep: spec_fn(char) -> bool) -> Seq<Seq<char>>
    decreases s.len(),
{
    if s.len() == 0 {
        Seq::empty()
    } else if !keep(s[0]) {
        runs(s.drop_first(), keep)
    } else {
        proof {
            lemma_run_len(s, keep);
        }
        seq![s.take(run_len(s, keep) as int)] + runs(s.skip(run_len(s, keep) as int), keep)
    }
}

/// A leading run is inside the text, holds kept characters only and ends at a
/// dropped character or at the end.
pub proof fn lemma_run_len(s: Seq<char>, keep: spec_fn(char) -> bool)
    ensures
        run_len(s, keep) <= s.len(),
        forall|i: int| 0 <= i < run_len(s, keep) ==> keep(#[trigger] s[i]),
        run_len(s, keep) < s.len() ==> !keep(s[run_len(s, keep) as int]),
        s.len() > 0 && keep(s[0]) ==> run_len(s, keep) > 0,
    decreases s.len(),
{
    if s.len() > 0 && keep(s[0]) {
        let t = s.drop_first();
        lemma_run_len(t, keep);
        assert forall|i: int| 0 <= i < run_len(s, keep) implies keep(#[trigger] s[i]) by {
            if i > 0 {
                assert(keep(t[i - 1]));
            }
        }
    }
}

/// A leading run is fixed by where it ends.
pub proof fn lemma_run_len_is(s: Seq<char>, keep: spec_fn(char) -> bool, k: int)
    requires
        0 <= k <= s.len(),
        forall|i: int| 0 <= i < k ==> keep(#[trigger] s[i]),
        k < s.len() ==> !keep(s[k]),
    ensures
        run_len(s, keep) == k,
{
    lemma_run_len(s, keep);
    let r = run_len(s, keep) as int;
    if r < k {
        assert(keep(s[r]));
    } else if k < r {
        assert(keep(s[k]));
    }
}

/// Every run is non-empty and holds kept characters only.
pub proof fn lemma_runs_kept(s: Seq<char>, keep: spec_fn(char) -> bool)
    ensures
        forall|k: int, i: int|
            0 <= k < runs(s, keep).len() && 0 <= i < runs(s, keep)[k].len() ==> keep(
                #[trigger] runs(s, keep)[k][i],
            ),
        forall|k: int| 0 <= k < runs(s, keep).len() ==> (#[trigger] runs(s, keep)[k]).len() > 0,
    decreases s.len(),
{
    if s.len() > 0 {
        if !keep(s[0]) {
            lemma_runs_kept(s.drop_first(), keep);
            assert(runs(s, keep) == runs(s.drop_first(), keep));
        } else {
            lemma_run_len(s, keep);
            let n = run_len(s, keep) as int;
            let rest = runs(s.skip(n), keep);
            lemma_runs_kept(s.skip(n), keep);
            let all = runs(s, keep);
            assert(all =~= seq![s.take(n)] + rest);
            assert forall|k: int, i: int| 0 <= k < all.len() && 0 <= i < all[k].len() implies keep(
                #[trigger] all[k][i],
            ) by {
                if k > 0 {
                    assert(all[k] == rest[k - 1]);
                    assert(keep(rest[k - 1][i]));
                } else {
                    assert(all[0] == s.take(n));
                    assert(s.take(n)[i] == s[i]);
                }
            }
            assert forall|k: int| 0 <= k < all.len() implies (#[trigger] all[k]).len() > 0 by {
                if k > 0 {
                    assert(all[k] == rest[k - 1]);
                }
            }
        }
    }
}

/// The views of a list of strings.
pub open spec fn views(parts: Seq<String>) -> Seq<Seq<char>> {
    parts.map_values(|p: String| p@)
}

/// The views of a list of character vectors.
pub open spec fn chars_views(parts: Seq<Vec<char>>) -> Seq<Seq<char>> {
    parts.map_values(|p: Vec<char>| p@)
}

/// Splits `chars` into its maximal runs of characters that `keep` accepts.
pub(crate) fn split_runs<F: Fn(char) -> bool>(
    chars: &Vec<char>,
    keep: F,
    Ghost(kept): Ghost<spec_fn(char) -> bool>,
) -> (parts: Vec<Vec<char>>)
    requires
        forall|c: char| call_requires(keep, (c,)),
        forall|c: char, b: bool| call_ensures(keep, (c,), b) ==> b == kept(c),
    ensures
        chars_views(parts@) == runs(chars@, kept),
{
    let mut parts: Vec<Vec<char>> = Vec::new();
    let mut i: usize = 0;
    proof {
        assert(chars@.skip(0) =~= chars@);
        assert(chars_views(parts@) + runs(chars@.skip(0), kept) =~= runs(chars@, kept));
    }
    while i < chars.len()
        invariant
            i <= chars.len(),
            chars_views(parts@) + runs(chars@.skip(i as int), kept) == runs(chars@, kept),
            forall|c: char| call_requires(keep, (c,)),
            forall|c: char, b: bool| call_ensures(keep, (c,), b) ==> b == kept(c),
        decreases chars.len() - i,
    {
        let ghost rest = chars@.skip(i as int);
        if !keep(chars[i]) {
            proof {
                assert(rest.drop_first() =~= chars@.skip(i + 1));
            }
            i = i + 1;
        } else {
            let start: usize = i;
            let mut part: Vec<char> = Vec::new();
            part.push(chars[i]);
            i = i + 1;
            while i < chars.len() && keep(chars[i])
                invariant
                    start < i <= chars.len(),
                    part@ == chars@.subrange(start as int, i as int),
                    forall|j: int| start <= j < i ==> kept(#[trigger] chars@[j]),
                    forall|c: char| call_requires(keep, (c,)),
                    forall|c: char, b: bool| call_ensures(keep, (c,), b) ==> b == kept(c),
                ensures
                    i < chars.len() ==> !kept(chars@[i as int]),
                decreases chars.len() - i,
            {
                part.push(chars[i]);
                proof {
                    assert(part@ =~= chars@.subrange(start as int, i + 1));
                }
                i = i + 1;
            }
            proof {
                let n = i - start;
                assert forall|j: int| 0 <= j < n implies kept(#[trigger] rest[j]) by {
                    assert(rest[j] == chars@[start + j]);
                }
                lemma_run_len_is(rest, kept, n);
                assert(rest.take(n) =~= part@);
                assert(rest.skip(n) =~= chars@.skip(i as int));
                assert(chars_views(parts@.push(part)) =~= chars_views(parts@).push(part@));
                assert(chars_views(parts@) + runs(rest, kept) =~= chars_views(parts@).push(part@)
                    + runs(chars@.skip(i as int), kept));
            }
            parts.push(part);
        }
    }
    proof {
        assert(chars@.skip(i as int) =~= Seq::empty());
        assert(chars_views(parts@) =~= runs(chars@, kept));
    }
    parts
}

// ---------------------------------------------------------------------------
// Joins
// ---------------------------------------------------------------------------

/// The parts one after the other, with `sep` between neighbours.
pub open spec fn join(parts: Seq<Seq<char>>, sep: Seq<char>) -> Seq<char>
    decreases parts.len(),
{
    if parts.len() == 0 {
        Seq::empty()
    } else if parts.len() == 1 {
        parts[0]
    } else {
        join(parts.drop_last(), sep) + sep + parts.last()
    }
}

/// Joins character vectors.
pub fn join_chars(parts: &Vec<Vec<char>>, sep: &str) -> (out: String)
    ensures
        out@ == join(chars_views(parts@), sep@),
{
    let mut out = String::new();
    let mut i: usize = 0;
    let ghost all = chars_views(parts@);
    proof {
        assert(all.take(0) =~= Seq::empty());
    }
    while i < parts.len()
        invariant
            i <= parts.len(),
            all == chars_views(parts@),
            out@ == join(all.take(i as int), sep@),
        decreases parts.len() - i,
    {
        proof {
            assert(all.take(i + 1).drop_last() =~= all.take(i as int));
        }
        let piece = crate::text::from_chars(parts[i].as_slice());
        if i > 0 {
            out.append(sep);
        }
        out.append(piece.as_str());
        proof {
            if i == 0 {
                assert(out@ =~= piece@);
            }
            assert(all.take(i + 1).last() == piece@);
        }
        i = i + 1;
    }
    proof {
        assert(all.take(i as int) =~= all);
    }
    out
}

/// Joins strings.
pub fn join_strings(parts: &Vec<String>, sep: &str) -> (out: String)
    ensures
        out@ == join(views(parts@), sep@),
{
    let mut out = String::new();
    let mut i: usize = 0;
    let ghost all = views(parts@);
    proof {
        assert(all.take(0) =~= Seq::empty());
    }
    while i < parts.len()
        invariant
            i <= parts.len(),
            all == views(parts@),
            out@ == join(all.take(i as int), sep@),
        decreases parts.len() - i,
    {
        proof {
            assert(all.take(i + 1).drop_last() =~= all.take(i as int));
        }
        if i > 0 {
            out.append(sep);
        }
        out.append(parts[i].as_str());
        proof {
            if i == 0 {
                assert(out@ =~= parts@[0]@);
            }
            assert(all.take(i + 1).last() == parts@[i as int]@);
        }
        i = i + 1;
    }
    proof {
        assert(all.take(i as int) =~= all);
    }
    out
}

/// A join of single lines with a single-line separator is a single line.
pub proof fn lemma_join_single_line(parts: Seq<Seq<char>>, sep: Seq<char>)
    requires
        single_line(sep),
        forall|k: int| 0 <= k < parts.len() ==> single_line(#[trigger] parts[k]),
    ensures
        single_line(join(parts, sep)),
    decreases parts.len(),
{
    broadcast use crate::text::lemma_single_line_concat;

    if parts.len() > 1 {
        assert forall|k: int| 0 <= k < parts.drop_last().len() implies single_line(
            #[trigger] parts.drop_last()[k],
        ) by {
            assert(parts.drop_last()[k] == parts[k]);
        }
        lemma_join_single_line(parts.drop_last(), sep);
    }
}

// ---------------------------------------------------------------------------
// Whitespace
// ---------------------------------------------------------------------------

/// The characters that are not white space.
pub open spec fn non_space() -> spec_fn(char) -> bool {
    |c: char| !is_white_space(c)
}

/// The words of the text with one space between neighbours.
pub open spec fn collapse(s: Seq<char>) -> Seq<char> {
    join(runs(s, non_space()), " "@)
}

/// Whether `c` is not white space.
fn not_white_space(c: char) -> (r: bool)
    ensures
        r == !is_white_space(c),
{
    !white_space(c)
}

/// Collapses every stretch of white space into one space and drops it at the ends.
pub fn collapse_whitespace(s: &str) -> (out: String)
    ensures
        out@ == collapse(s@),
{
    let chars = crate::text::to_chars(s);
    let words = split_runs(&chars, not_white_space, Ghost(non_space()));
    join_chars(&words, " ")
}

/// Collapsed text holds no line end.
pub broadcast proof fn lemma_collapse_single_line(s: Seq<char>)
    ensures
        #[trigger] single_line(collapse(s)),
{
    reveal_strlit(" ");
    let words = runs(s, non_space());
    lemma_runs_kept(s, non_space());
    assert forall|k: int| 0 <= k < words.len() implies single_line(#[trigger] words[k]) by {
        assert forall|i: int| 0 <= i < words[k].len() implies #[trigger] words[k][i] != '\n'
            && words[k][i] != '\r' by {
            assert(non_space()(words[k][i]));
        }
    }
    lemma_join_single_line(words, " "@);
}

// ---------------------------------------------------------------------------
// Trims
// ---------------------------------------------------------------------------

/// The white-space characters.
pub open spec fn space() -> spec_fn(char) -> bool {
    |c: char| is_white_space(c)
}

/// The one character `c`.
pub open spec fn only(c: char) -> spec_fn(char) -> bool {
    |d: char| d == c
}

/// Every character but `c`.
pub open spec fn not_char(c: char) -> spec_fn(char) -> bool {
    |d: char| d != c
}

/// The text without its leading kept characters.
pub open spec fn strip_start(s: Seq<char>, keep: spec_fn(char) -> bool) -> Seq<char> {
    s.skip(run_len(s, keep) as int)
}

/// The text without the white space at its end.
pub open spec fn trim_end(s: Seq<char>) -> Seq<char>
    decreases s.len(),
{
    if s.len() > 0 && is_white_space(s.last()) {
        trim_end(s.drop_last())
    } else {
        s
    }
}

/// The text without the white space at either end.
pub open spec fn trim(s: Seq<char>) -> Seq<char> {
    trim_end(strip_start(s, space()))
}

/// The index past the leading characters of `chars[from..]` that are white space.
pub fn skip_white_space(chars: &Vec<char>, from: usize) -> (i: usize)
    requires
        from <= chars.len(),
    ensures
        from <= i <= chars.len(),
        chars@.skip(i as int) == strip_start(chars@.skip(from as int), space()),
        i - from == run_len(chars@.skip(from as int), space()),
{
    let mut i: usize = from;
    while i < chars.len() && white_space(chars[i])
        invariant
            from <= i <= chars.len(),
            forall|j: int| from <= j < i ==> is_white_space(#[trigger] chars@[j]),
        ensures
            i < chars.len() ==> !is_white_space(chars@[i as int]),
        decreases chars.len() - i,
    {
        i = i + 1;
    }
    proof {
        let rest = chars@.skip(from as int);
        assert forall|j: int| 0 <= j < i - from implies space()(#[trigger] rest[j]) by {
            assert(rest[j] == chars@[from + j]);
        }
        lemma_run_len_is(rest, space(), i - from);
        assert(rest.skip(i - from) =~= chars@.skip(i as int));
    }
    i
}

/// The index past the leading characters of `chars` that equal `c`.
pub fn skip_char(chars: &Vec<char>, c: char) -> (i: usize)
    ensures
        i <= chars.len(),
        chars@.skip(i as int) == strip_start(chars@, only(c)),
{
    let mut i: usize = 0;
    while i < chars.len() && chars[i] == c
        invariant
            i <= chars.len(),
            forall|j: int| 0 <= j < i ==> #[trigger] chars@[j] == c,
        ensures
            i < chars.len() ==> chars@[i as int] != c,
        decreases chars.len() - i,
    {
        i = i + 1;
    }
    proof {
        lemma_run_len_is(chars@, only(c), i as int);
    }
    i
}

/// The index past the first character of `chars[from..]` that equals `c`, or the
/// end: how long the leading run without `c` is.
pub fn find_char(chars: &Vec<char>, from: usize, c: char) -> (i: usize)
    requires
        from <= chars.len(),
    ensures
        from <= i <= chars.len(),
        i - from == run_len(chars@.skip(from as int), not_char(c)),
        i < chars.len() ==> chars@[i as int] == c,
{
    let mut i: usize = from;
    while i < chars.len() && chars[i] != c
        invariant
            from <= i <= chars.len(),
            forall|j: int| from <= j < i ==> #[trigger] chars@[j] != c,
        ensures
            i < chars.len() ==> chars@[i as int] == c,
        decreases chars.len() - i,
    {
        i = i + 1;
    }
    proof {
        let rest = chars@.skip(from as int);
        assert forall|j: int| 0 <= j < i - from implies not_char(c)(#[trigger] rest[j]) by {
            assert(rest[j] == chars@[from + j]);
        }
        lemma_run_len_is(rest, not_char(c), i - from);
    }
    i
}

/// The end of `chars[from..]` once trailing white space is left out.
pub fn end_of_text(chars: &Vec<char>, from: usize) -> (to: usize)
    requires
        from <= chars.len(),
    ensures
        from <= to <= chars.len(),
        chars@.subrange(from as int, to as int) == trim_end(chars@.skip(from as int)),
{
    let mut to: usize = chars.len();
    proof {
        assert(chars@.subrange(from as int, to as int) =~= chars@.skip(from as int));
    }
    while to > from && white_space(chars[to - 1])
        invariant
            from <= to <= chars.len(),
            trim_end(chars@.subrange(from as int, to as int)) == trim_end(chars@.skip(from as int)),
        ensures
            to > from ==> !is_white_space(chars@[to - 1]),
        decreases to,
    {
        proof {
            let cur = chars@.subrange(from as int, to as int);
            assert(cur.drop_last() =~= chars@.subrange(from as int, to - 1));
            assert(cur.last() == chars@[to - 1]);
        }
        to = to - 1;
    }
    proof {
        let cur = chars@.subrange(from as int, to as int);
        if cur.len() > 0 {
            assert(cur.last() == chars@[to - 1]);
        }
        assert(trim_end(cur) == cur);
    }
    to
}

/// Trims white space at both ends.
pub fn trim_chars(chars: &Vec<char>) -> (out: String)
    ensures
        out@ == trim(chars@),
{
    proof {
        assert(chars@.skip(0) =~= chars@);
    }
    let from: usize = skip_white_space(chars, 0);
    let to: usize = end_of_text(chars, from);
    from_range(chars, from, to)
}

/// Trims white space at both ends.
pub fn trim_text(s: &str) -> (out: String)
    ensures
        out@ == trim(s@),
{
    let chars = crate::text::to_chars(s);
    trim_chars(&chars)
}

/// Trimming keeps a single line one.
pub proof fn lemma_trim_single_line(s: Seq<char>)
    requires
        single_line(s),
    ensures
        single_line(trim(s)),
{
    lemma_run_len(s, space());
    let t = strip_start(s, space());
    assert forall|i: int| 0 <= i < t.len() implies #[trigger] t[i] != '\n' && t[i] != '\r' by {
        assert(t[i] == s[i + run_len(s, space())]);
    }
    lemma_trim_end_single_line(t);
}

proof fn lemma_trim_end_single_line(s: Seq<char>)
    requires
        single_line(s),
    ensures
        single_line(trim_end(s)),
    decreases s.len(),
{
    if s.len() > 0 && is_white_space(s.last()) {
        assert(single_line(s.drop_last())) by {
            assert forall|i: int| 0 <= i < s.drop_last().len() implies #[trigger] s.drop_last()[i]
                != '\n' && s.drop_last()[i] != '\r' by {
                assert(s.drop_last()[i] == s[i]);
            }
        }
        lemma_trim_end_single_line(s.drop_last());
    }
}

// ---------------------------------------------------------------------------
// Searches
// ---------------------------------------------------------------------------

/// `pat` stands in `s` at index `i`.
pub open spec fn occurs_at(s: Seq<char>, pat: Seq<char>, i: int) -> bool {
    &&& 0 <= i
    &&& i + pat.len() <= s.len()
    &&& s.subrange(i, i + pat.len()) == pat
}

/// `pat` stands somewhere in `s`.
pub open spec fn contains(s: Seq<char>, pat: Seq<char>) -> bool {
    exists|i: int| occurs_at(s, pat, i)
}

/// The text begins with `pat`.
pub open spec fn starts_with(s: Seq<char>, pat: Seq<char>) -> bool {
    s.len() >= pat.len() && s.take(pat.len() as int) == pat
}

/// The text ends with `pat`.
pub open spec fn ends_with(s: Seq<char>, pat: Seq<char>) -> bool {
    s.len() >= pat.len() && s.skip(s.len() - pat.len()) == pat
}

/// The first index at or after `from` at which `pat` stands in `s`.
pub open spec fn find(s: Seq<char>, pat: Seq<char>, from: int) -> Option<int>
    decreases s.len() - from + 1,
{
    if from < 0 || from + pat.len() > s.len() {
        None
    } else if occurs_at(s, pat, from) {
        Some(from)
    } else {
        find(s, pat, from + 1)
    }
}

/// The last index at or before `from` at which `pat` stands in `s`.
pub open spec fn rfind(s: Seq<char>, pat: Seq<char>, from: int) -> Option<int>
    decreases from + 1,
{
    if from < 0 {
        None
    } else if occurs_at(s, pat, from) {
        Some(from)
    } else {
        rfind(s, pat, from - 1)
    }
}

/// What [`find`] gives is an occurrence, and there is none before it.
pub proof fn lemma_find(s: Seq<char>, pat: Seq<char>, from: int)
    requires
        0 <= from,
    ensures
        match find(s, pat, from) {
            Some(i) => from <= i && occurs_at(s, pat, i) && forall|j: int|
                from <= j < i ==> !occurs_at(s, pat, j),
            None => forall|j: int| from <= j ==> !occurs_at(s, pat, j),
        },
    decreases s.len() - from + 1,
{
    if from + pat.len() <= s.len() && !occurs_at(s, pat, from) {
        lemma_find(s, pat, from + 1);
    }
}

/// What [`rfind`] gives is an occurrence, and there is none behind it.
pub proof fn lemma_rfind(s: Seq<char>, pat: Seq<char>, from: int)
    ensures
        match rfind(s, pat, from) {
            Some(i) => i <= from && occurs_at(s, pat, i) && forall|j: int|
                i < j <= from ==> !occurs_at(s, pat, j),
            None => forall|j: int| j <= from ==> !occurs_at(s, pat, j),
        },
    decreases from + 1,
{
    if from >= 0 && !occurs_at(s, pat, from) {
        lemma_rfind(s, pat, from - 1);
    }
}

/// Whether `pat` stands in `chars` at index `i`.
pub fn matches_at(chars: &Vec<char>, pat: &Vec<char>, i: usize) -> (r: bool)
    ensures
        r == occurs_at(chars@, pat@, i as int),
{
    if i > chars.len() || pat.len() > chars.len() - i {
        return false;
    }
    let mut k: usize = 0;
    while k < pat.len()
        invariant
            k <= pat.len(),
            i + pat.len() <= chars.len(),
            forall|j: int| 0 <= j < k ==> chars@[i + j] == #[trigger] pat@[j],
        decreases pat.len() - k,
    {
        if chars[i + k] != pat[k] {
            proof {
                assert(chars@.subrange(i as int, i + pat.len())[k as int] == chars@[i + k]);
            }
            return false;
        }
        k = k + 1;
    }
    proof {
        assert(chars@.subrange(i as int, i + pat.len()) =~= pat@);
    }
    true
}

/// The first index at or after `from` at which `pat` stands in `chars`.
pub fn find_in(chars: &Vec<char>, pat: &Vec<char>, from: usize) -> (r: Option<usize>)
    ensures
        match r {
            Some(i) => find(chars@, pat@, from as int) == Some(i as int),
            None => find(chars@, pat@, from as int) is None,
        },
{
    if from > chars.len() {
        return None;
    }
    let mut i: usize = from;
    loop
        invariant
            from <= i <= chars.len(),
            find(chars@, pat@, i as int) == find(chars@, pat@, from as int),
        decreases chars.len() - i,
    {
        if pat.len() > chars.len() - i {
            return None;
        }
        if matches_at(chars, pat, i) {
            return Some(i);
        }
        if i == chars.len() {
            proof {
                assert(find(chars@, pat@, i + 1) is None);
            }
            return None;
        }
        i = i + 1;
    }
}

/// The last index at which `pat` stands in `chars`.
pub fn rfind_in(chars: &Vec<char>, pat: &Vec<char>) -> (r: Option<usize>)
    ensures
        match r {
            Some(i) => rfind(chars@, pat@, chars@.len() as int) == Some(i as int),
            None => rfind(chars@, pat@, chars@.len() as int) is None,
        },
{
    let mut i: usize = chars.len();
    loop
        invariant
            i <= chars.len(),
            rfind(chars@, pat@, i as int) == rfind(chars@, pat@, chars@.len() as int),
        decreases i,
    {
        if matches_at(chars, pat, i) {
            return Some(i);
        }
        if i == 0 {
            proof {
                assert(rfind(chars@, pat@, -1) is None);
            }
            return None;
        }
        i = i - 1;
    }
}

/// Whether `pat` stands somewhere in `chars`.
pub fn contains_chars(chars: &Vec<char>, pat: &Vec<char>) -> (r: bool)
    ensures
        r == contains(chars@, pat@),
{
    proof {
        lemma_find(chars@, pat@, 0);
    }
    match find_in(chars, pat, 0) {
        Some(_) => true,
        None => false,
    }
}

// ---------------------------------------------------------------------------
// Splits and lines
// ---------------------------------------------------------------------------

/// The pieces between the separators `c`: one more than there are separators.
pub open spec fn split(s: Seq<char>, c: char) -> Seq<Seq<char>>
    decreases s.len(),
{
    let k = run_len(s, not_char(c)) as int;
    if k >= s.len() {
        seq![s]
    } else {
        seq![s.take(k)] + split(s.skip(k + 1), c)
    }
}

/// Splits at every `c`.
pub fn split_at_char(s: &str, c: char) -> (parts: Vec<String>)
    ensures
        views(parts@) == split(s@, c),
{
    let chars = crate::text::to_chars(s);
    let mut parts: Vec<String> = Vec::new();
    let mut i: usize = 0;
    proof {
        assert(chars@.skip(0) =~= chars@);
        assert(views(parts@) + split(chars@.skip(0), c) =~= split(s@, c));
    }
    loop
        invariant
            i <= chars.len(),
            chars@ == s@,
            views(parts@) + split(chars@.skip(i as int), c) == split(s@, c),
        decreases chars.len() - i,
    {
        let ghost rest = chars@.skip(i as int);
        let k: usize = find_char(&chars, i, c);
        let part = from_range(&chars, i, k);
        proof {
            assert(part@ =~= rest.take(k - i));
            assert(views(parts@.push(part)) =~= views(parts@).push(part@));
        }
        parts.push(part);
        if k == chars.len() {
            proof {
                assert(rest.take(k - i) =~= rest);
                assert(views(parts@) =~= split(s@, c));
            }
            return parts;
        }
        proof {
            assert(rest.skip(k - i + 1) =~= chars@.skip(k + 1));
            assert(views(parts@) + split(chars@.skip(k + 1), c) =~= split(s@, c));
        }
        i = k + 1;
    }
}

/// The line without the carriage return that may end it.
pub open spec fn strip_cr(s: Seq<char>) -> Seq<char> {
    if s.len() > 0 && s.last() == '\r' {
        s.drop_last()
    } else {
        s
    }
}

/// The lines of a text: each ends at a line feed, which may follow a carriage
/// return, or at the end of the text; no empty line follows the last line feed.
pub open spec fn lines(s: Seq<char>) -> Seq<Seq<char>>
    decreases s.len(),
{
    let k = run_len(s, not_char('\n')) as int;
    if s.len() == 0 {
        Seq::empty()
    } else if k >= s.len() {
        seq![s]
    } else {
        seq![strip_cr(s.take(k))] + lines(s.skip(k + 1))
    }
}

/// Splits a text into its lines.
pub fn split_lines(chars: &Vec<char>) -> (parts: Vec<Vec<char>>)
    ensures
        chars_views(parts@) == lines(chars@),
{
    let mut parts: Vec<Vec<char>> = Vec::new();
    let mut i: usize = 0;
    proof {
        assert(chars@.skip(0) =~= chars@);
        assert(chars_views(parts@) + lines(chars@.skip(0)) =~= lines(chars@));
    }
    while i < chars.len()
        invariant
            i <= chars.len(),
            chars_views(parts@) + lines(chars@.skip(i as int)) == lines(chars@),
        decreases chars.len() - i,
    {
        let ghost rest = chars@.skip(i as int);
        let k: usize = find_char(chars, i, '\n');
        let end: usize = if k < chars.len() && k > i && chars[k - 1] == '\r' {
            k - 1
        } else {
            k
        };
        let part = copy_range(chars, i, end);
        let ghost n = k - i;
        proof {
            assert(rest.take(n) =~= chars@.subrange(i as int, k as int));
            if k < chars.len() {
                assert(part@ =~= strip_cr(rest.take(n)));
            } else {
                assert(part@ =~= rest);
            }
            assert(chars_views(parts@.push(part)) =~= chars_views(parts@).push(part@));
        }
        parts.push(part);
        if k == chars.len() {
            proof {
                assert(chars@.skip(k as int) =~= Seq::empty());
                assert(chars_views(parts@) + lines(chars@.skip(k as int)) =~= lines(chars@));
            }
            i = k;
        } else {
            proof {
                assert(rest.skip(n + 1) =~= chars@.skip(k + 1));
                assert(chars_views(parts@) + lines(chars@.skip(k + 1)) =~= lines(chars@));
            }
            i = k + 1;
        }
    }
    proof {
        assert(chars@.skip(i as int) =~= Seq::empty());
        assert(chars_views(parts@) =~= lines(chars@));
    }
    parts
}

/// A copy of `chars[from..to]`.
pub fn copy_range(chars: &Vec<char>, from: usize, to: usize) -> (out: Vec<char>)
    requires
        from <= to <= chars.len(),
    ensures
        out@ == chars@.subrange(from as int, to as int),
{
    let mut out: Vec<char> = Vec::new();
    let mut i: usize = from;
    while i < to
        invariant
            from <= i <= to <= chars.len(),
            out@ == chars@.subrange(from as int, i as int),
        decreases to - i,
    {
        out.push(chars[i]);
        proof {
            assert(out@ =~= chars@.subrange(from as int, i + 1));
        }
        i = i + 1;
    }
    out
}

} // verus!
