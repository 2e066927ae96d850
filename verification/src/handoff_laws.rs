//! What is read back from a handoff file and from the status of its repository.

use vstd::prelude::*;
use crate::handoff_file::{
    is_first_sha, is_heading, mentions_repo_state, repo_state_section, section_body, sha_at,
    trim_start,
};
use crate::text::{is_hex, is_white_space, lower, lowered};
use crate::validation::{
    blocking, blocking_list, blocks, byte_len, code_chars, handoff_failure, status_path, utf8_len,
    HandoffProbe,
};
use crate::words::{
    ends_with, join, lemma_run_len, lemma_run_len_is, lines, occurs_at, only, run_len, space,
    strip_start, trim,
};

verus! {

// ---------------------------------------------------------------------------
// The recorded HEAD
// ---------------------------------------------------------------------------

/// The first character of the line that is not white space is `#`.
pub open spec fn opens_section(line: Seq<char>) -> bool {
    exists|n: int|
        0 <= n < line.len() && #[trigger] line[n] == '#' && forall|i: int|
            0 <= i < n ==> is_white_space(#[trigger] line[i])
}

/// The words `repo state` stand at `n` in the line, in any case.
pub open spec fn repo_state_at(line: Seq<char>, n: int) -> bool {
    0 <= n && n + 10 <= line.len() && forall|i: int|
        0 <= i < 10 ==> #[trigger] lower(line[n + i]) == "repo state"@[i]
}

/// A digit or one of the letters up to `f`, small or capital.
pub open spec fn hex_digit(c: char) -> bool {
    '0' <= c <= '9' || 'a' <= c <= 'f' || 'A' <= c <= 'F'
}

/// A digit or a letter of ASCII.
pub open spec fn letter_or_digit(c: char) -> bool {
    '0' <= c <= '9' || 'a' <= c <= 'z' || 'A' <= c <= 'Z'
}

/// Forty hexadecimal digits stand alone at `n`.
pub open spec fn commit_at(s: Seq<char>, n: int) -> bool {
    &&& 0 <= n
    &&& n + 40 <= s.len()
    &&& forall|i: int| n <= i < n + 40 ==> hex_digit(#[trigger] s[i])
    &&& n > 0 ==> !letter_or_digit(s[n - 1])
    &&& n + 40 < s.len() ==> !letter_or_digit(s[n + 40])
}

/// No commit stands in the line.
pub open spec fn without_commit(line: Seq<char>) -> bool {
    forall|n: int| !#[trigger] commit_at(line, n)
}

proof fn lemma_commit_at(s: Seq<char>, n: int)
    ensures
        sha_at(s, n) <==> commit_at(s, n),
{
    if commit_at(s, n) {
        assert forall|j: int| n <= j < n + 40 implies #[trigger] is_hex(s[j]) by {
            assert(hex_digit(s[j]));
        }
    }
    if sha_at(s, n) {
        assert forall|i: int| n <= i < n + 40 implies hex_digit(#[trigger] s[i]) by {
            assert(is_hex(s[i]));
        }
    }
}

proof fn lemma_opens_section(line: Seq<char>)
    ensures
        is_heading(line) <==> opens_section(line),
{
    lemma_run_len(line, space());
    let k = run_len(line, space()) as int;
    if is_heading(line) {
        assert(trim_start(line)[0] == line[k]);
        assert forall|i: int| 0 <= i < k implies is_white_space(#[trigger] line[i]) by {
            assert(space()(line[i]));
        }
    }
    if opens_section(line) {
        let n = choose|n: int|
            0 <= n < line.len() && #[trigger] line[n] == '#' && forall|i: int|
                0 <= i < n ==> is_white_space(#[trigger] line[i]);
        assert forall|i: int| 0 <= i < n implies space()(#[trigger] line[i]) by {}
        lemma_run_len_is(line, space(), n);
        assert(trim_start(line)[0] == line[n]);
    }
}

proof fn lemma_repo_state_at(line: Seq<char>)
    ensures
        mentions_repo_state(line) <==> exists|n: int| #[trigger] repo_state_at(line, n),
{
    reveal_strlit("repo state");
    lemma_run_len(line, space());
    let k = run_len(line, space()) as int;
    let t = trim_start(line);
    if mentions_repo_state(line) {
        let i = choose|i: int| occurs_at(lowered(t), "repo state"@, i);
        assert forall|x: int| 0 <= x < 10 implies #[trigger] lower(line[k + i + x])
            == "repo state"@[x] by {
            assert(lowered(t).subrange(i, i + 10)[x] == lowered(t)[i + x]);
            assert(t[i + x] == line[k + i + x]);
        }
        assert(repo_state_at(line, k + i));
    }
    if exists|n: int| #[trigger] repo_state_at(line, n) {
        let n = choose|n: int| #[trigger] repo_state_at(line, n);
        assert(lower(line[n + 0]) == "repo state"@[0]);
        if n < k {
            assert(space()(line[n]));
        }
        let i = n - k;
        assert(lowered(t).subrange(i, i + 10) =~= "repo state"@) by {
            assert forall|x: int| 0 <= x < 10 implies #[trigger] lowered(t).subrange(i, i + 10)[x]
                == "repo state"@[x] by {
                assert(t[i + x] == line[n + x]);
                assert(lower(line[n + x]) == "repo state"@[x]);
            }
        }
        assert(occurs_at(lowered(t), "repo state"@, i));
    }
}

/// A commit in a line and what follows it stands in the one or in the other.
proof fn lemma_commit_across(a: Seq<char>, b: Seq<char>, p: int)
    ensures
        commit_at(a.push('\n') + b, p) <==> (p < a.len() && commit_at(a, p)) || (p > a.len()
            && commit_at(b, p - a.len() - 1)),
{
    let s = a.push('\n') + b;
    let m = a.len() as int;
    assert(s[m] == '\n');
    assert(!hex_digit('\n') && !letter_or_digit('\n'));
    assert forall|i: int| 0 <= i < m implies #[trigger] s[i] == a[i] by {}
    assert forall|i: int| 0 <= i < b.len() implies #[trigger] b[i] == s[m + 1 + i] by {}
    if commit_at(s, p) {
        if p <= m && m < p + 40 {
            assert(hex_digit(s[m]));
        }
        if p < m {
            assert forall|i: int| p <= i < p + 40 implies hex_digit(#[trigger] a[i]) by {
                assert(hex_digit(s[i]));
            }
        } else {
            let q = p - m - 1;
            assert forall|i: int| q <= i < q + 40 implies hex_digit(#[trigger] b[i]) by {
                assert(hex_digit(s[m + 1 + i]));
            }
            if q > 0 {
                assert(b[q - 1] == s[p - 1]);
            }
            if q + 40 < b.len() {
                assert(b[q + 40] == s[p + 40]);
            }
        }
    }
    if p < m && commit_at(a, p) {
        assert forall|i: int| p <= i < p + 40 implies hex_digit(#[trigger] s[i]) by {
            assert(hex_digit(a[i]));
        }
    }
    if p > m && commit_at(b, p - m - 1) {
        let q = p - m - 1;
        assert forall|i: int| p <= i < p + 40 implies hex_digit(#[trigger] s[i]) by {
            assert(hex_digit(b[i - m - 1]));
        }
        if q > 0 {
            assert(b[q - 1] == s[p - 1]);
        }
        if q + 40 < b.len() {
            assert(b[q + 40] == s[p + 40]);
        }
    }
}

/// The first commit of a line is the first of the line and what follows it.
proof fn lemma_first_in_line(a: Seq<char>, b: Seq<char>, n: int)
    requires
        commit_at(a, n),
        forall|i: int| 0 <= i < n ==> !#[trigger] commit_at(a, i),
    ensures
        ({
            let s = a.push('\n') + b;
            &&& commit_at(s, n)
            &&& forall|i: int| 0 <= i < n ==> !#[trigger] commit_at(s, i)
            &&& s.subrange(n, n + 40) == a.subrange(n, n + 40)
        }),
{
    let s = a.push('\n') + b;
    lemma_commit_across(a, b, n);
    assert forall|i: int| 0 <= i < n implies !#[trigger] commit_at(s, i) by {
        lemma_commit_across(a, b, i);
        assert(!commit_at(a, i));
    }
    assert(s.subrange(n, n + 40) =~= a.subrange(n, n + 40));
}

/// The first commit behind a line without one is the first of both.
proof fn lemma_first_behind_line(a: Seq<char>, b: Seq<char>, n: int)
    requires
        without_commit(a),
        commit_at(b, n),
        forall|i: int| 0 <= i < n ==> !#[trigger] commit_at(b, i),
    ensures
        ({
            let s = a.push('\n') + b;
            let m = n + a.len() + 1;
            &&& commit_at(s, m)
            &&& forall|i: int| 0 <= i < m ==> !#[trigger] commit_at(s, i)
            &&& s.subrange(m, m + 40) == b.subrange(n, n + 40)
        }),
{
    let s = a.push('\n') + b;
    let m = n + a.len() + 1;
    lemma_commit_across(a, b, m);
    assert forall|i: int| 0 <= i < m implies !#[trigger] commit_at(s, i) by {
        lemma_commit_across(a, b, i);
        assert(!commit_at(a, i));
        if i > a.len() {
            assert(!commit_at(b, i - a.len() - 1));
        }
    }
    assert(s.subrange(m, m + 40) =~= b.subrange(n, n + 40));
}

/// Without a commit in a line, and without one behind it, there is none in both.
proof fn lemma_none_across(a: Seq<char>, b: Seq<char>)
    requires
        without_commit(a),
        without_commit(b),
    ensures
        without_commit(a.push('\n') + b),
{
    assert forall|i: int| !#[trigger] commit_at(a.push('\n') + b, i) by {
        lemma_commit_across(a, b, i);
        assert(!commit_at(a, i));
        assert(!commit_at(b, i - a.len() - 1));
    }
}

/// The first commit of a section's body.
proof fn lemma_body(rest: Seq<Seq<char>>, at: int, n: int) -> (p: int)
    requires
        0 <= at < rest.len(),
        forall|k: int| 0 <= k <= at ==> !opens_section(#[trigger] rest[k]),
        forall|k: int| 0 <= k < at ==> without_commit(#[trigger] rest[k]),
        commit_at(rest[at], n),
        forall|i: int| 0 <= i < n ==> !#[trigger] commit_at(rest[at], i),
    ensures
        commit_at(section_body(rest), p),
        forall|i: int| 0 <= i < p ==> !#[trigger] commit_at(section_body(rest), i),
        section_body(rest).subrange(p, p + 40) == rest[at].subrange(n, n + 40),
    decreases at,
{
    lemma_opens_section(rest[0]);
    assert(!opens_section(rest[0]));
    let tail = rest.drop_first();
    if at == 0 {
        lemma_first_in_line(rest[0], section_body(tail), n);
        n
    } else {
        assert forall|k: int| 0 <= k <= at - 1 implies !opens_section(#[trigger] tail[k]) by {
            assert(tail[k] == rest[k + 1]);
        }
        assert forall|k: int| 0 <= k < at - 1 implies without_commit(#[trigger] tail[k]) by {
            assert(tail[k] == rest[k + 1]);
        }
        assert(tail[at - 1] == rest[at]);
        let q = lemma_body(tail, at - 1, n);
        assert(without_commit(rest[0]));
        lemma_first_behind_line(rest[0], section_body(tail), q);
        q + rest[0].len() + 1
    }
}

/// A body whose lines have no commit has none.
proof fn lemma_body_without(rest: Seq<Seq<char>>, end: int)
    requires
        0 <= end <= rest.len(),
        end < rest.len() ==> opens_section(rest[end]),
        forall|k: int| 0 <= k < end ==> without_commit(#[trigger] rest[k]),
    ensures
        without_commit(section_body(rest)),
    decreases rest.len(),
{
    if rest.len() > 0 {
        lemma_opens_section(rest[0]);
        if !is_heading(rest[0]) {
            let tail = rest.drop_first();
            assert forall|k: int| 0 <= k < end - 1 implies without_commit(#[trigger] tail[k]) by {
                assert(tail[k] == rest[k + 1]);
            }
            if end < rest.len() {
                assert(tail[end - 1] == rest[end]);
            }
            lemma_body_without(tail, end - 1);
            assert(without_commit(rest[0]));
            lemma_none_across(rest[0], section_body(tail));
        }
    }
}

/// The section starts at the first line that mentions it.
proof fn lemma_section_from(all: Seq<Seq<char>>, first: int)
    requires
        0 <= first < all.len(),
        exists|n: int| #[trigger] repo_state_at(all[first], n),
        forall|k: int, n: int| 0 <= k < first ==> !#[trigger] repo_state_at(all[k], n),
    ensures
        repo_state_section(all) == trim_start(all[first]).push('\n') + section_body(
            all.skip(first + 1),
        ),
    decreases first,
{
    lemma_repo_state_at(all[0]);
    let tail = all.drop_first();
    if first == 0 {
        assert(tail =~= all.skip(1));
    } else {
        assert(forall|n: int| !#[trigger] repo_state_at(all[0], n));
        assert(tail[first - 1] == all[first]);
        assert forall|k: int, n: int| 0 <= k < first - 1 implies !#[trigger] repo_state_at(
            tail[k],
            n,
        ) by {
            assert(tail[k] == all[k + 1]);
        }
        lemma_section_from(tail, first - 1);
        assert(tail.skip(first) =~= all.skip(first + 1));
    }
}

proof fn lemma_no_section(all: Seq<Seq<char>>)
    requires
        forall|k: int, n: int| 0 <= k < all.len() ==> !#[trigger] repo_state_at(all[k], n),
    ensures
        repo_state_section(all) == Seq::<char>::empty(),
    decreases all.len(),
{
    if all.len() > 0 {
        lemma_repo_state_at(all[0]);
        assert(forall|n: int| !#[trigger] repo_state_at(all[0], n));
        let tail = all.drop_first();
        assert forall|k: int, n: int| 0 <= k < tail.len() implies !#[trigger] repo_state_at(
            tail[k],
            n,
        ) by {
            assert(tail[k] == all[k + 1]);
        }
        lemma_no_section(tail);
    }
}

/// What is read is fixed by the first commit.
proof fn lemma_first_is_read(s: Seq<char>, p: int)
    requires
        commit_at(s, p),
        forall|i: int| 0 <= i < p ==> !#[trigger] commit_at(s, i),
    ensures
        forall|sha: Option<Seq<char>>| #[trigger]
            is_first_sha(s, sha) ==> sha == Some(s.subrange(p, p + 40)),
        is_first_sha(s, Some(s.subrange(p, p + 40))),
{
    lemma_commit_at(s, p);
    assert forall|i: int| 0 <= i < p implies !#[trigger] sha_at(s, i) by {
        lemma_commit_at(s, i);
    }
    assert forall|sha: Option<Seq<char>>| #[trigger] is_first_sha(s, sha) implies sha == Some(
        s.subrange(p, p + 40),
    ) by {
        assert(sha_at(s, p));
        if sha is Some {
            let t = sha->0;
            let i = choose|i: int|
                #![trigger sha_at(s, i)]
                sha_at(s, i) && t == s.subrange(i, i + 40) && forall|j: int|
                    0 <= j < i ==> !#[trigger] sha_at(s, j);
            assert(sha_at(s, i) && i <= p);
            assert(i >= p);
        }
    }
}

proof fn lemma_nothing_is_read(s: Seq<char>)
    requires
        without_commit(s),
    ensures
        forall|sha: Option<Seq<char>>| #[trigger] is_first_sha(s, sha) ==> sha is None,
        is_first_sha(s, None),
{
    assert forall|j: int| !#[trigger] sha_at(s, j) by {
        lemma_commit_at(s, j);
    }
}

/// A commit that stands alone on a line behind the first one that mentions the repository
/// state is what is read, whatever other lines stand in between, blank ones too, as long
/// as none of them is a heading and none, nor the mention itself, holds a commit.
pub proof fn law_the_recorded_head_is_read_from_any_line_of_its_section(
    all: Seq<Seq<char>>,
    first: int,
    at: int,
    n: int,
)
    requires
        0 <= first < at < all.len(),
        exists|n: int| #[trigger] repo_state_at(all[first], n),
        forall|k: int, n: int| 0 <= k < first ==> !#[trigger] repo_state_at(all[k], n),
        forall|k: int| first < k <= at ==> !opens_section(#[trigger] all[k]),
        without_commit(trim_start(all[first])),
        forall|k: int| first < k < at ==> without_commit(#[trigger] all[k]),
        commit_at(all[at], n),
        forall|i: int| 0 <= i < n ==> !#[trigger] commit_at(all[at], i),
    ensures
        forall|sha: Option<Seq<char>>| #[trigger]
            is_first_sha(repo_state_section(all), sha) ==> sha == Some(
                all[at].subrange(n, n + 40),
            ),
{
    lemma_section_from(all, first);
    let rest = all.skip(first + 1);
    let to = at - first - 1;
    assert(rest[to] == all[at]);
    assert forall|k: int| 0 <= k <= to implies !opens_section(#[trigger] rest[k]) by {
        assert(rest[k] == all[first + 1 + k]);
    }
    assert forall|k: int| 0 <= k < to implies without_commit(#[trigger] rest[k]) by {
        assert(rest[k] == all[first + 1 + k]);
    }
    let p = lemma_body(rest, to, n);
    lemma_first_behind_line(trim_start(all[first]), section_body(rest), p);
    lemma_first_is_read(repo_state_section(all), p + trim_start(all[first]).len() + 1);
}

/// A commit on the very line that mentions the repository state is what is read.
pub proof fn law_the_recorded_head_may_stand_with_the_mention(
    all: Seq<Seq<char>>,
    first: int,
    n: int,
)
    requires
        0 <= first < all.len(),
        exists|n: int| #[trigger] repo_state_at(all[first], n),
        forall|k: int, n: int| 0 <= k < first ==> !#[trigger] repo_state_at(all[k], n),
        commit_at(trim_start(all[first]), n),
        forall|i: int| 0 <= i < n ==> !#[trigger] commit_at(trim_start(all[first]), i),
    ensures
        forall|sha: Option<Seq<char>>| #[trigger]
            is_first_sha(repo_state_section(all), sha) ==> sha == Some(
                trim_start(all[first]).subrange(n, n + 40),
            ),
{
    lemma_section_from(all, first);
    lemma_first_in_line(trim_start(all[first]), section_body(all.skip(first + 1)), n);
    lemma_first_is_read(repo_state_section(all), n);
}

/// A commit behind the next heading is not read, nor one before the mention: where no line
/// from the mention up to the next heading holds one, nothing is read.
pub proof fn law_no_head_is_read_from_outside_the_section(
    all: Seq<Seq<char>>,
    first: int,
    end: int,
)
    requires
        0 <= first < end <= all.len(),
        exists|n: int| #[trigger] repo_state_at(all[first], n),
        forall|k: int, n: int| 0 <= k < first ==> !#[trigger] repo_state_at(all[k], n),
        end < all.len() ==> opens_section(all[end]),
        without_commit(trim_start(all[first])),
        forall|k: int| first < k < end ==> without_commit(#[trigger] all[k]),
    ensures
        forall|sha: Option<Seq<char>>| #[trigger]
            is_first_sha(repo_state_section(all), sha) ==> sha is None,
{
    lemma_section_from(all, first);
    let rest = all.skip(first + 1);
    let to = end - first - 1;
    if end < all.len() {
        assert(rest[to] == all[end]);
    }
    assert forall|k: int| 0 <= k < to implies without_commit(#[trigger] rest[k]) by {
        assert(rest[k] == all[first + 1 + k]);
    }
    lemma_body_without(rest, to);
    lemma_none_across(trim_start(all[first]), section_body(rest));
    lemma_nothing_is_read(repo_state_section(all));
}

/// A file that never mentions the repository state records nothing.
pub proof fn law_no_head_is_read_without_a_mention(all: Seq<Seq<char>>)
    requires
        forall|k: int, n: int| 0 <= k < all.len() ==> !#[trigger] repo_state_at(all[k], n),
    ensures
        forall|sha: Option<Seq<char>>| #[trigger]
            is_first_sha(repo_state_section(all), sha) ==> sha is None,
{
    lemma_no_section(all);
    lemma_nothing_is_read(repo_state_section(all));
}

// ---------------------------------------------------------------------------
// The status of the repository
// ---------------------------------------------------------------------------

/// The path is under `.maestro/`.
pub open spec fn under_maestro(path: Seq<char>) -> bool {
    path.len() >= 9 && path.take(9) == ".maestro/"@
}

/// The code is that of an untracked or of an ignored entry.
pub open spec fn untracked_or_ignored(a: char, b: char) -> bool {
    (a == '?' && b == '?') || (a == '!' && b == '!')
}

/// A status line of two ASCII characters, white space, quotes and a path blocks unless the
/// two are `??` or `!!`, or the path is under `.maestro/`; nothing else is asked of either.
pub proof fn law_what_a_status_line_says(
    a: char,
    b: char,
    gap: Seq<char>,
    quotes: Seq<char>,
    path: Seq<char>,
)
    requires
        (a as u32) < 0x80,
        (b as u32) < 0x80,
        forall|i: int| 0 <= i < gap.len() ==> is_white_space(#[trigger] gap[i]),
        forall|i: int| 0 <= i < quotes.len() ==> #[trigger] quotes[i] == '"',
        gap.len() + quotes.len() + path.len() > 0,
        path.len() > 0 ==> path[0] != '"' && (quotes.len() == 0 ==> !is_white_space(path[0])),
    ensures
        blocks(seq![a, b] + gap + quotes + path) <==> !untracked_or_ignored(a, b)
            && !under_maestro(path),
{
    let line = seq![a, b] + gap + quotes + path;
    reveal_strlit("??");
    reveal_strlit("!!");
    reveal_strlit(".maestro/");
    lemma_long(line);
    assert(code_chars(line) == 2);
    assert(line.take(2) =~= seq![a, b]);
    assert(line.take(2)[0] == a && line.take(2)[1] == b);
    if a == '?' && b == '?' {
        assert(seq![a, b] =~= "??"@);
    }
    if a == '!' && b == '!' {
        assert(seq![a, b] =~= "!!"@);
    }
    let tail = line.skip(2);
    assert(tail =~= gap + quotes + path);
    assert forall|i: int| 0 <= i < gap.len() implies space()(#[trigger] tail[i]) by {
        assert(tail[i] == gap[i]);
    }
    if gap.len() < tail.len() {
        if quotes.len() > 0 {
            assert(tail[gap.len() as int] == quotes[0]);
        } else {
            assert(tail[gap.len() as int] == path[0]);
        }
    }
    lemma_run_len_is(tail, space(), gap.len() as int);
    let quoted = strip_start(tail, space());
    assert(quoted =~= quotes + path);
    assert forall|i: int| 0 <= i < quotes.len() implies only('"')(#[trigger] quoted[i]) by {
        assert(quoted[i] == quotes[i]);
    }
    if quotes.len() < quoted.len() {
        assert(quoted[quotes.len() as int] == path[0]);
    }
    lemma_run_len_is(quoted, only('"'), quotes.len() as int);
    assert(status_path(line) =~= path);
    if path.len() >= 9 {
        assert(path.take(9) =~= path.subrange(0, 9));
    }
}

proof fn lemma_long(s: Seq<char>)
    ensures
        byte_len(s) >= s.len(),
    decreases s.len(),
{
    if s.len() > 0 {
        assert(utf8_len(s[0]) >= 1);
        lemma_long(s.drop_first());
    }
}

/// For every two ASCII characters other than `??` and `!!`, and every path that is not
/// under `.maestro/`, the line of both blocks, quoted or not. So a code with a letter on
/// either side, or on both, is uncommitted work.
pub proof fn law_uncommitted_work_blocks(a: char, b: char, path: Seq<char>)
    requires
        (a as u32) < 0x80,
        (b as u32) < 0x80,
        !untracked_or_ignored(a, b),
        path.len() > 0,
        path[0] != '"',
        !is_white_space(path[0]),
        !under_maestro(path),
    ensures
        blocks(seq![a, b, ' '] + path),
        blocks(seq![a, b, ' ', '"'] + path),
{
    let gap = seq![' '];
    let none = Seq::<char>::empty();
    law_what_a_status_line_says(a, b, gap, none, path);
    assert(seq![a, b, ' '] + path =~= seq![a, b] + gap + none + path);
    law_what_a_status_line_says(a, b, gap, seq!['"'], path);
    assert(seq![a, b, ' ', '"'] + path =~= seq![a, b] + gap + seq!['"'] + path);
}

/// An untracked or ignored entry never blocks, and nothing under `.maestro/` does.
pub proof fn law_untracked_and_own_files_never_block(a: char, b: char, path: Seq<char>)
    requires
        (a as u32) < 0x80,
        (b as u32) < 0x80,
        path.len() > 0,
        path[0] != '"',
        !is_white_space(path[0]),
        untracked_or_ignored(a, b) || under_maestro(path),
    ensures
        !blocks(seq![a, b, ' '] + path),
        !blocks(seq![a, b, ' ', '"'] + path),
{
    let gap = seq![' '];
    let none = Seq::<char>::empty();
    law_what_a_status_line_says(a, b, gap, none, path);
    assert(seq![a, b, ' '] + path =~= seq![a, b] + gap + none + path);
    law_what_a_status_line_says(a, b, gap, seq!['"'], path);
    assert(seq![a, b, ' ', '"'] + path =~= seq![a, b] + gap + seq!['"'] + path);
}

/// A handoff is valid exactly if the status could be read and no line of it blocks.
pub proof fn law_a_handoff_is_valid_if_nothing_blocks(relpath: Seq<char>, probe: HandoffProbe)
    ensures
        handoff_failure(relpath, probe) is None <==> (
        probe matches HandoffProbe::GitStatus { stdout } && forall|i: int|
            0 <= i < lines(stdout@).len() ==> !blocks(#[trigger] lines(stdout@)[i])),
{
    if let HandoffProbe::GitStatus { stdout } = probe {
        let all = lines(stdout@);
        let pick = |line: Seq<char>| blocks(line);
        let kept = all.filter(pick);
        assert(blocking(all) == kept);
        if kept.len() > 0 {
            all.lemma_filter_pred(pick, 0);
            assert(kept.contains(kept[0]));
            all.lemma_filter_contains_rev(pick, kept[0]);
            let i = choose|i: int| 0 <= i < all.len() && all[i] == kept[0];
            assert(blocks(all[i]));
        }
        assert forall|i: int| 0 <= i < all.len() && kept.len() == 0 implies !blocks(
            #[trigger] all[i],
        ) by {
            if blocks(all[i]) {
                all.lemma_filter_contains(pick, i);
            }
        }
    }
}

/// A validated handoff leaves only untracked and ignored entries, and what is under
/// `.maestro/`, in the status.
pub proof fn law_a_validated_handoff_leaves_no_tracked_work(
    relpath: Seq<char>,
    stdout: String,
    i: int,
    a: char,
    b: char,
    path: Seq<char>,
)
    requires
        handoff_failure(relpath, HandoffProbe::GitStatus { stdout }) is None,
        0 <= i < lines(stdout@).len(),
        lines(stdout@)[i] == seq![a, b, ' '] + path || lines(stdout@)[i] == seq![a, b, ' ', '"']
            + path,
        (a as u32) < 0x80,
        (b as u32) < 0x80,
        path.len() > 0,
        path[0] != '"',
        !is_white_space(path[0]),
    ensures
        untracked_or_ignored(a, b) || under_maestro(path),
{
    law_a_handoff_is_valid_if_nothing_blocks(relpath, HandoffProbe::GitStatus { stdout });
    if !untracked_or_ignored(a, b) && !under_maestro(path) {
        law_uncommitted_work_blocks(a, b, path);
    }
}

/// What is said of a handoff that is not valid: where the file should be, why the status
/// could not be read, or which lines of it block.
pub proof fn law_what_a_failure_says(relpath: Seq<char>, probe: HandoffProbe)
    ensures
        match probe {
            HandoffProbe::DirectoryUnknown => handoff_failure(relpath, probe) is Some,
            HandoffProbe::FileMissing => handoff_failure(relpath, probe) matches Some(text)
                && ends_with(text, relpath),
            HandoffProbe::GitNotRun { error } => handoff_failure(relpath, probe) matches Some(text)
                && ends_with(text, error@),
            HandoffProbe::GitFailed { stderr } => handoff_failure(
                relpath,
                probe,
            ) matches Some(text) && ends_with(text, trim(stderr@)),
            HandoffProbe::GitStatus { stdout } => handoff_failure(
                relpath,
                probe,
            ) matches Some(text) ==> ends_with(text, blocking_list(lines(stdout@))),
        },
{
    if let Some(text) = handoff_failure(relpath, probe) {
        match probe {
            HandoffProbe::FileMissing => lemma_ends("the handoff file is missing at "@, relpath),
            HandoffProbe::GitNotRun { error } => lemma_ends(
                "could not run git status in the session working directory: "@,
                error@,
            ),
            HandoffProbe::GitFailed { stderr } => lemma_ends(
                "git status failed in the session working directory: "@,
                trim(stderr@),
            ),
            HandoffProbe::GitStatus { stdout } => lemma_ends(
                "WIP is not committed — modified/staged tracked files remain: "@,
                blocking_list(lines(stdout@)),
            ),
            _ => {},
        }
    }
}

proof fn lemma_ends(a: Seq<char>, b: Seq<char>)
    ensures
        ends_with(a + b, b),
{
    assert((a + b).skip((a + b).len() - b.len()) =~= b);
}

/// The list of blocking lines has up to five of them, the first ones, trimmed and parted by
/// commas.
pub proof fn law_the_first_five_are_listed(all: Seq<Seq<char>>, shown: Seq<Seq<char>>)
    requires
        shown.len() == (if blocking(all).len() < 5 {
            blocking(all).len()
        } else {
            5
        }),
        forall|k: int| 0 <= k < shown.len() ==> #[trigger] shown[k] == trim(blocking(all)[k]),
    ensures
        blocking_list(all) == join(shown, ", "@),
        forall|k: int|
            0 <= k < blocking(all).len() ==> blocks(#[trigger] blocking(all)[k]) && all.contains(
                blocking(all)[k],
            ),
{
    let first = if blocking(all).len() <= 5 {
        blocking(all)
    } else {
        blocking(all).take(5)
    };
    assert(first.map_values(|line: Seq<char>| trim(line)) =~= shown);
    let pick = |line: Seq<char>| blocks(line);
    assert(blocking(all) == all.filter(pick));
    assert forall|k: int| 0 <= k < blocking(all).len() implies blocks(
        #[trigger] blocking(all)[k],
    ) && all.contains(blocking(all)[k]) by {
        all.lemma_filter_pred(pick, k);
        assert(all.filter(pick).contains(all.filter(pick)[k]));
        all.lemma_filter_contains_rev(pick, all.filter(pick)[k]);
    }
}

/// A line whose first character takes two bytes has that for its code, and blocks unless its
/// path is under `.maestro/`.
pub proof fn law_what_a_foreign_status_line_says(c: char, path: Seq<char>)
    requires
        0x80 <= c as u32,
        (c as u32) < 0x800,
        path.len() > 0,
        path[0] != '"',
        !is_white_space(path[0]),
    ensures
        blocks(seq![c, ' '] + path) <==> !under_maestro(path),
{
    let line = seq![c, ' '] + path;
    reveal_strlit("??");
    reveal_strlit("!!");
    reveal_strlit(".maestro/");
    lemma_long(line);
    assert(code_chars(line) == 1);
    assert(line.take(1).len() == 1);
    let tail = line.skip(1);
    assert(tail =~= seq![' '] + path);
    assert(space()(tail[0]));
    assert(!space()(tail[1]));
    lemma_run_len_is(tail, space(), 1);
    let bare = strip_start(tail, space());
    assert(bare =~= path);
    assert(!only('"')(bare[0]));
    lemma_run_len_is(bare, only('"'), 0);
    assert(status_path(line) =~= path);
    if path.len() >= 9 {
        assert(path.take(9) =~= path.subrange(0, 9));
    }
}

/// A line of fewer than three bytes names nothing and never blocks.
pub proof fn law_a_short_line_never_blocks(line: Seq<char>)
    requires
        line.len() == 0 || (line.len() == 1 && (line[0] as u32) < 0x800) || (line.len() == 2 && (
        line[0] as u32) < 0x80 && (line[1] as u32) < 0x80),
    ensures
        !blocks(line),
{
    if line.len() > 0 {
        let rest = line.drop_first();
        if rest.len() > 0 {
            assert(rest[0] == line[1]);
            assert(byte_len(rest.drop_first()) == 0);
            assert(byte_len(rest) == 1);
        } else {
            assert(byte_len(rest) == 0);
        }
    }
}

} // verus!
