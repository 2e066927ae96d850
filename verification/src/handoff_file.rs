//! Where handoff files live, and what is read back from them.

use vstd::prelude::*;
use crate::decimal::{all_digits, decimal, lemma_decimal, parse_u32, push_decimal, value_of};
use crate::text::{
    alnum, digit, from_chars, from_range, hex, is_alnum, is_digit, is_hex, lower, lower_chars,
    lowered, owned, to_chars,
};
use crate::words::{
    chars_views, contains, contains_chars, join, join_chars, lemma_rfind, lemma_runs_kept, lines,
    occurs_at, rfind, rfind_in, runs, skip_white_space, space, split_lines, split_runs, strip_start,
};

verus! {

// ---------------------------------------------------------------------------
// Slugs
// ---------------------------------------------------------------------------

/// The ASCII letters and digits.
pub open spec fn alnum_chars() -> spec_fn(char) -> bool {
    |c: char| is_alnum(c)
}

/// The runs of ASCII letters and digits with one `-` between neighbours.
pub open spec fn dashed(s: Seq<char>) -> Seq<char> {
    join(runs(s, alnum_chars()), "-"@)
}

/// The slug of `input`: its letters and digits lowered, every other stretch one
/// dash; `fallback` where it has none.
pub open spec fn ref_slug_text(input: Seq<char>, fallback: Seq<char>) -> Seq<char> {
    if runs(input, alnum_chars()).len() == 0 {
        fallback
    } else {
        lowered(dashed(input))
    }
}

/// The slug of a run's name.
pub open spec fn epic_slug_text(epic: Seq<char>) -> Seq<char> {
    ref_slug_text(epic, "epic"@)
}

/// The characters a slug is made of.
pub open spec fn is_slug_char(c: char) -> bool {
    is_digit(c) || 'a' <= c <= 'z' || c == '-'
}

/// The text is not empty and holds small ASCII letters, digits and dashes only.
pub open spec fn is_slug(s: Seq<char>) -> bool {
    &&& s.len() > 0
    &&& forall|i: int| 0 <= i < s.len() ==> #[trigger] is_slug_char(s[i])
}

/// The runs of letters and digits of `s` joined by dashes.
pub(crate) fn dash_runs(chars: &Vec<char>) -> (out: String)
    ensures
        out@ == dashed(chars@),
{
    let parts = split_runs(chars, alnum, Ghost(alnum_chars()));
    join_chars(&parts, "-")
}

/// A filesystem-safe slug: ASCII letters and digits are kept, in lower case;
/// every other stretch of characters becomes one `-`; an input with nothing to
/// keep gives `fallback`.
pub fn ref_slug(input: &str, fallback: &str) -> (slug: String)
    ensures
        slug@ == ref_slug_text(input@, fallback@),
{
    let chars = to_chars(input);
    let parts = split_runs(&chars, alnum, Ghost(alnum_chars()));
    proof {
        assert(chars_views(parts@).len() == parts@.len());
    }
    if parts.len() == 0 {
        owned(fallback)
    } else {
        let joined = join_chars(&parts, "-");
        let plain = to_chars(joined.as_str());
        let low = lower_chars(&plain);
        from_chars(low.as_slice())
    }
}

/// The slug of a run's name for file names: `#37` gives `37`; a name with
/// nothing to keep gives `epic`.
pub fn epic_slug(epic: &str) -> (slug: String)
    ensures
        slug@ == epic_slug_text(epic@),
        is_slug(slug@),
{
    proof {
        lemma_epic_slug_is_slug(epic@);
    }
    ref_slug(epic, "epic")
}

/// A slug is never empty and is safe in a file name, whatever the name it is
/// made of and as long as the fallback is a slug.
pub proof fn lemma_ref_slug_is_slug(input: Seq<char>, fallback: Seq<char>)
    requires
        is_slug(fallback),
    ensures
        is_slug(ref_slug_text(input, fallback)),
{
    let parts = runs(input, alnum_chars());
    if parts.len() > 0 {
        lemma_runs_kept(input, alnum_chars());
        assert forall|k: int| 0 <= k < parts.len() implies alnum_only(#[trigger] parts[k]) by {
            assert forall|i: int| 0 <= i < parts[k].len() implies is_alnum(
                #[trigger] parts[k][i],
            ) by {
                assert(alnum_chars()(parts[k][i]));
            }
        }
        assert(parts[0].len() > 0);
        lemma_join_dashes(parts);
        let plain = dashed(input);
        assert forall|i: int| 0 <= i < lowered(plain).len() implies #[trigger] is_slug_char(
            lowered(plain)[i],
        ) by {
            assert(is_alnum(plain[i]) || plain[i] == '-');
            assert(lowered(plain)[i] == lower(plain[i]));
        }
    }
}

/// Runs of letters and digits joined by dashes hold nothing else.
pub proof fn lemma_dashed_is_safe(input: Seq<char>)
    ensures
        forall|i: int|
            0 <= i < dashed(input).len() ==> is_alnum(#[trigger] dashed(input)[i])
                || dashed(input)[i] == '-',
{
    let parts = runs(input, alnum_chars());
    if parts.len() > 0 {
        lemma_runs_kept(input, alnum_chars());
        assert forall|k: int| 0 <= k < parts.len() implies alnum_only(#[trigger] parts[k]) by {
            assert forall|i: int| 0 <= i < parts[k].len() implies is_alnum(
                #[trigger] parts[k][i],
            ) by {
                assert(alnum_chars()(parts[k][i]));
            }
        }
        assert(parts[0].len() > 0);
        lemma_join_dashes(parts);
    }
}

/// The slug of a run's name is a slug.
pub proof fn lemma_epic_slug_is_slug(epic: Seq<char>)
    ensures
        is_slug(epic_slug_text(epic)),
{
    reveal_strlit("epic");
    lemma_ref_slug_is_slug(epic, "epic"@);
}

spec fn alnum_only(s: Seq<char>) -> bool {
    forall|i: int| 0 <= i < s.len() ==> is_alnum(#[trigger] s[i])
}

proof fn lemma_join_dashes(parts: Seq<Seq<char>>)
    requires
        parts.len() > 0,
        parts[0].len() > 0,
        forall|k: int| 0 <= k < parts.len() ==> alnum_only(#[trigger] parts[k]),
    ensures
        join(parts, "-"@).len() > 0,
        forall|i: int|
            0 <= i < join(parts, "-"@).len() ==> is_alnum(#[trigger] join(parts, "-"@)[i]) || join(
                parts,
                "-"@,
            )[i] == '-',
    decreases parts.len(),
{
    reveal_strlit("-");
    if parts.len() > 1 {
        let init = parts.drop_last();
        assert forall|k: int| 0 <= k < init.len() implies alnum_only(#[trigger] init[k]) by {
            assert(init[k] == parts[k]);
        }
        lemma_join_dashes(init);
        let head = join(init, "-"@);
        let all = join(parts, "-"@);
        assert(all == head + "-"@ + parts.last());
        assert forall|i: int| 0 <= i < all.len() implies is_alnum(#[trigger] all[i]) || all[i]
            == '-' by {
            if i < head.len() {
                assert(all[i] == head[i]);
            } else if i > head.len() {
                assert(all[i] == parts.last()[i - head.len() - 1]);
            }
        }
    } else {
        assert(alnum_only(parts[0]));
    }
}

// ---------------------------------------------------------------------------
// Paths
// ---------------------------------------------------------------------------

/// The path of a generation's handoff file, relative to the repository.
pub open spec fn handoff_file_relpath_text(epic: Seq<char>, generation: u32) -> Seq<char> {
    ".maestro/handoffs/"@ + epic_slug_text(epic) + "-gen"@ + decimal(generation as nat) + ".md"@
}

/// The path of the digest a recovering generation reads, relative to the
/// repository.
pub open spec fn recovery_digest_relpath_text(epic: Seq<char>, generation: u32) -> Seq<char> {
    ".maestro/handoffs/"@ + epic_slug_text(epic) + "-gen"@ + decimal(generation as nat)
        + "-recovery.md"@
}

/// Repository-relative path of the gen-`generation` handoff file,
/// `.maestro/handoffs/<slug>-gen<N>.md`. Forward slashes on every platform: they
/// stand verbatim in the instruction text.
pub fn handoff_file_relpath(epic: &str, generation: u32) -> (path: String)
    ensures
        path@ == handoff_file_relpath_text(epic@, generation),
{
    let mut path = owned(".maestro/handoffs/");
    path.append(epic_slug(epic).as_str());
    path.append("-gen");
    push_decimal(&mut path, generation as u64);
    path.append(".md");
    path
}

/// Repository-relative path of the transcript digest written for a recovering
/// gen-`successor_generation`. The `-recovery` suffix keeps it apart from every
/// handoff file.
pub fn recovery_digest_relpath(epic: &str, successor_generation: u32) -> (path: String)
    ensures
        path@ == recovery_digest_relpath_text(epic@, successor_generation),
{
    let mut path = owned(".maestro/handoffs/");
    path.append(epic_slug(epic).as_str());
    path.append("-gen");
    push_decimal(&mut path, successor_generation as u64);
    path.append("-recovery.md");
    path
}

/// The text ends in `suffix`.
pub open spec fn ends_with(s: Seq<char>, suffix: Seq<char>) -> bool {
    occurs_at(s, suffix, s.len() - suffix.len())
}

/// The generation that a handoff file's name carries: between the last `-gen`,
/// which one dash may follow, and the final `.md` stand digits alone, and the
/// number they spell fits in 32 bits.
pub open spec fn handoff_generation(filename: Seq<char>) -> Option<u32> {
    if !ends_with(filename, ".md"@) {
        None
    } else {
        let stem = filename.take(filename.len() - ".md"@.len());
        match rfind(stem, "-gen"@, stem.len() as int) {
            None => None,
            Some(at) => {
                let tail = stem.skip(at + "-gen"@.len());
                let digits = if tail.len() > 0 && tail[0] == '-' {
                    tail.skip(1)
                } else {
                    tail
                };
                if digits.len() > 0 && all_digits(digits) && value_of(digits) <= u32::MAX {
                    Some(value_of(digits) as u32)
                } else {
                    None
                }
            },
        }
    }
}

/// Parses the generation out of a handoff file name, `<slug>-gen<N>.md` or
/// `<slug>-gen-<N>.md`. The last `-gen` counts, so a slug that holds `-gen`
/// itself does no harm; recovery digests give `None`.
pub fn parse_handoff_generation(filename: &str) -> (generation: Option<u32>)
    ensures
        generation == handoff_generation(filename@),
{
    let name = to_chars(filename);
    let suffix = to_chars(".md");
    if suffix.len() > name.len() || !crate::words::matches_at(
        &name,
        &suffix,
        name.len() - suffix.len(),
    ) {
        return None;
    }
    let stem = crate::words::copy_range(&name, 0, name.len() - suffix.len());
    proof {
        assert(stem@ =~= filename@.take(filename@.len() - ".md"@.len()));
    }
    let infix = to_chars("-gen");
    match rfind_in(&stem, &infix) {
        None => None,
        Some(at) => {
            proof {
                lemma_rfind(stem@, "-gen"@, stem@.len() as int);
            }
            let tail: usize = at + infix.len();
            let from: usize = if tail < stem.len() && stem[tail] == '-' {
                tail + 1
            } else {
                tail
            };
            proof {
                let tail_text = stem@.skip(tail as int);
                if tail < stem.len() {
                    assert(tail_text[0] == stem@[tail as int]);
                }
                let digits = if tail_text.len() > 0 && tail_text[0] == '-' {
                    tail_text.skip(1)
                } else {
                    tail_text
                };
                assert(stem@.subrange(from as int, stem@.len() as int) =~= digits);
            }
            if from == stem.len() || !digits_only(&stem, from) {
                None
            } else {
                parse_u32(&stem, from, stem.len())
            }
        },
    }
}

/// Whether `chars[from..]` holds decimal digits only.
fn digits_only(chars: &Vec<char>, from: usize) -> (r: bool)
    requires
        from <= chars.len(),
    ensures
        r == all_digits(chars@.subrange(from as int, chars@.len() as int)),
{
    let ghost rest = chars@.subrange(from as int, chars@.len() as int);
    let mut i: usize = from;
    while i < chars.len()
        invariant
            from <= i <= chars.len(),
            rest == chars@.subrange(from as int, chars@.len() as int),
            forall|j: int| 0 <= j < i - from ==> #[trigger] is_digit(rest[j]),
        decreases chars.len() - i,
    {
        if !digit(chars[i]) {
            proof {
                assert(!is_digit(rest[i - from]));
            }
            return false;
        }
        i = i + 1;
    }
    true
}

/// The last `-gen` of a stem is the one before its digits.
proof fn lemma_last_gen(head: Seq<char>, digits: Seq<char>, suffix: Seq<char>, stem: Seq<char>)
    requires
        stem == head + "-gen"@ + digits + suffix,
        digits.len() > 0,
        all_digits(digits),
        suffix.len() >= 2 ==> suffix[1] != 'g',
        forall|i: int| 1 <= i < suffix.len() ==> #[trigger] suffix[i] != '-',
    ensures
        rfind(stem, "-gen"@, stem.len() as int) == Some(head.len() as int),
        "-gen"@.len() == 4,
        stem.skip(head.len() as int + 4) == digits + suffix,
{
    reveal_strlit("-gen");
    let at = head.len() as int;
    let dash = at + 4 + digits.len();
    assert(stem.len() == dash + suffix.len());
    assert(stem.subrange(at, at + 4) =~= "-gen"@);
    assert(occurs_at(stem, "-gen"@, at));
    assert forall|j: int| at < j implies !occurs_at(stem, "-gen"@, j) by {
        if occurs_at(stem, "-gen"@, j) {
            let w = stem.subrange(j, j + 4);
            assert(w[0] == stem[j] && w[1] == stem[j + 1]);
            if j < at + 4 {
                assert(stem[j] == "-gen"@[j - at]);
            } else if j < dash {
                assert(stem[j] == digits[j - at - 4]);
                assert(is_digit(digits[j - at - 4]));
            } else {
                assert(stem[j] == suffix[j - dash]);
                assert(stem[j + 1] == suffix[j + 1 - dash]);
            }
        }
    }
    lemma_rfind(stem, "-gen"@, stem.len() as int);
    assert(stem.skip(at + 4) =~= digits + suffix);
}

/// A path that ends in `.md` reads as its stem does.
proof fn lemma_generation_of_stem(stem: Seq<char>, path: Seq<char>)
    requires
        path == stem + ".md"@,
    ensures
        ends_with(path, ".md"@),
        path.take(path.len() - ".md"@.len()) == stem,
{
    assert(path.subrange(path.len() - ".md"@.len(), path.len() as int) =~= ".md"@);
    assert(path.take(path.len() - ".md"@.len()) =~= stem);
}

/// A name made of anything, `-gen`, a number and an ending: with `.md` it names the number,
/// also with a dash before it; with `-recovery.md` it names none.
pub(crate) proof fn lemma_file_name_generation(head: Seq<char>, generation: u32)
    ensures
        handoff_generation(head + "-gen"@ + decimal(generation as nat) + ".md"@) == Some(
            generation,
        ),
        handoff_generation(head + "-gen"@ + "-"@ + decimal(generation as nat) + ".md"@) == Some(
            generation,
        ),
        handoff_generation(head + "-gen"@ + decimal(generation as nat) + "-recovery.md"@) is None,
{
    let digits = decimal(generation as nat);
    lemma_decimal(generation as nat);
    assert(is_digit(digits[0]));
    // The plain name.
    let plain = head + "-gen"@ + digits;
    lemma_generation_of_stem(plain, plain + ".md"@);
    assert(plain =~= head + "-gen"@ + digits + Seq::<char>::empty());
    lemma_last_gen(head, digits, Seq::empty(), plain);
    assert(digits + Seq::<char>::empty() =~= digits);
    // With a dash.
    let spelled = head + "-gen"@ + "-"@ + digits;
    lemma_generation_of_stem(spelled, spelled + ".md"@);
    lemma_last_gen_dash(head, digits, spelled);
    assert(("-"@ + digits).skip(1) =~= digits) by {
        reveal_strlit("-");
    }
    // A digest.
    let suffix = "-recovery"@;
    let stem = head + "-gen"@ + digits + suffix;
    assert("-recovery.md"@ =~= suffix + ".md"@) by {
        reveal_strlit("-recovery.md");
        reveal_strlit("-recovery");
        reveal_strlit(".md");
    }
    let digest = head + "-gen"@ + digits + "-recovery.md"@;
    assert(digest =~= stem + ".md"@);
    lemma_generation_of_stem(stem, digest);
    reveal_strlit("-recovery");
    lemma_last_gen(head, digits, suffix, stem);
    let tail = digits + suffix;
    assert(tail[0] == digits[0]);
    assert(!is_digit(tail[digits.len() as int]));
}

/// The last `-gen` of a stem is the one before the dash and the digits.
proof fn lemma_last_gen_dash(head: Seq<char>, digits: Seq<char>, stem: Seq<char>)
    requires
        stem == head + "-gen"@ + "-"@ + digits,
        digits.len() > 0,
        all_digits(digits),
    ensures
        rfind(stem, "-gen"@, stem.len() as int) == Some(head.len() as int),
        "-gen"@.len() == 4,
        stem.skip(head.len() as int + 4) == "-"@ + digits,
        ("-"@ + digits)[0] == '-',
{
    reveal_strlit("-gen");
    reveal_strlit("-");
    let at = head.len() as int;
    assert(stem.subrange(at, at + 4) =~= "-gen"@);
    assert(occurs_at(stem, "-gen"@, at));
    assert forall|j: int| at < j implies !occurs_at(stem, "-gen"@, j) by {
        if occurs_at(stem, "-gen"@, j) {
            let w = stem.subrange(j, j + 4);
            assert(w[0] == stem[j] && w[1] == stem[j + 1]);
            if j < at + 4 {
                assert(stem[j] == "-gen"@[j - at]);
            } else if j == at + 4 {
                assert(stem[j + 1] == digits[0]);
                assert(is_digit(digits[0]));
            } else {
                assert(stem[j] == digits[j - at - 5]);
                assert(is_digit(digits[j - at - 5]));
            }
        }
    }
    lemma_rfind(stem, "-gen"@, stem.len() as int);
    assert(stem.skip(at + 4) =~= "-"@ + digits);
}

/// The generation in a handoff file's path is the one it was made for.
pub proof fn law_relpath_names_its_generation(epic: Seq<char>, generation: u32)
    ensures
        handoff_generation(handoff_file_relpath_text(epic, generation)) == Some(generation),
{
    lemma_file_name_generation(".maestro/handoffs/"@ + epic_slug_text(epic), generation);
}

/// A recovery digest's path never reads as a handoff file's.
pub proof fn law_recovery_digest_names_no_generation(epic: Seq<char>, generation: u32)
    ensures
        handoff_generation(recovery_digest_relpath_text(epic, generation)) is None,
{
    lemma_file_name_generation(".maestro/handoffs/"@ + epic_slug_text(epic), generation);
}

// ---------------------------------------------------------------------------
// The recorded HEAD
// ---------------------------------------------------------------------------

/// The line without its leading white space.
pub open spec fn trim_start(line: Seq<char>) -> Seq<char> {
    strip_start(line, space())
}

/// The line is a Markdown heading.
pub open spec fn is_heading(line: Seq<char>) -> bool {
    trim_start(line).len() > 0 && trim_start(line)[0] == '#'
}

/// The line mentions the repository state, in any case.
pub open spec fn mentions_repo_state(line: Seq<char>) -> bool {
    contains(lowered(trim_start(line)), "repo state"@)
}

/// The lines up to the next heading, each with its line feed.
pub open spec fn section_body(rest: Seq<Seq<char>>) -> Seq<char>
    decreases rest.len(),
{
    if rest.len() == 0 || is_heading(rest[0]) {
        Seq::empty()
    } else {
        rest[0].push('\n') + section_body(rest.drop_first())
    }
}

/// The "Repo state" section: from the first line that mentions it up to the next
/// heading.
pub open spec fn repo_state_section(rest: Seq<Seq<char>>) -> Seq<char>
    decreases rest.len(),
{
    if rest.len() == 0 {
        Seq::empty()
    } else if mentions_repo_state(rest[0]) {
        trim_start(rest[0]).push('\n') + section_body(rest.drop_first())
    } else {
        repo_state_section(rest.drop_first())
    }
}

/// Forty hexadecimal digits stand at `i`, with no letter or digit on either side.
pub open spec fn sha_at(s: Seq<char>, i: int) -> bool {
    &&& 0 <= i
    &&& i + 40 <= s.len()
    &&& forall|j: int| i <= j < i + 40 ==> #[trigger] is_hex(s[j])
    &&& i == 0 || !is_alnum(s[i - 1])
    &&& i + 40 == s.len() || !is_alnum(s[i + 40])
}

/// `sha` is the first stand-alone run of forty hexadecimal digits, if there is one.
pub open spec fn is_first_sha(s: Seq<char>, sha: Option<Seq<char>>) -> bool {
    match sha {
        Some(t) => exists|i: int|
            #![trigger sha_at(s, i)]
            sha_at(s, i) && t == s.subrange(i, i + 40) && forall|j: int|
                0 <= j < i ==> !#[trigger] sha_at(s, j),
        None => forall|j: int| !#[trigger] sha_at(s, j),
    }
}

/// The view of an optional string.
pub open spec fn opt_view(s: Option<String>) -> Option<Seq<char>> {
    match s {
        Some(t) => Some(t@),
        None => None,
    }
}

/// The HEAD commit that a handoff file records: the first stand-alone run of
/// forty hexadecimal digits in its "Repo state" section. The section starts at
/// the first line that mentions it, heading or not, and ends at the next heading.
pub fn handoff_head_sha(content: &str) -> (sha: Option<String>)
    ensures
        is_first_sha(repo_state_section(lines(content@)), opt_view(sha)),
{
    let chars = to_chars(content);
    let all = split_lines(&chars);
    let marker = to_chars("repo state");
    let ghost texts = chars_views(all@);
    let mut i: usize = 0;
    proof {
        assert(texts.skip(0) =~= texts);
    }
    while i < all.len()
        invariant
            i <= all.len(),
            texts == chars_views(all@),
            texts == lines(content@),
            marker@ == "repo state"@,
            repo_state_section(texts.skip(i as int)) == repo_state_section(texts),
        decreases all.len() - i,
    {
        let line = &all[i];
        let start: usize = skip_from_zero(line);
        let trimmed = crate::words::copy_range(line, start, line.len());
        proof {
            assert(trimmed@ =~= trim_start(line@));
            assert(texts.skip(i as int)[0] == line@);
            assert(texts.skip(i as int).drop_first() =~= texts.skip(i + 1));
        }
        if contains_chars(&lower_chars(&trimmed), &marker) {
            let section = collect_section(&all, i + 1, trimmed);
            proof {
                assert(section@ =~= repo_state_section(texts));
            }
            return find_forty_hex(&section);
        }
        i = i + 1;
    }
    proof {
        assert(texts.skip(i as int) =~= Seq::empty());
    }
    let empty: Vec<char> = Vec::new();
    proof {
        assert(empty@ =~= repo_state_section(texts));
    }
    find_forty_hex(&empty)
}

/// Where the text of a line starts.
fn skip_from_zero(line: &Vec<char>) -> (start: usize)
    ensures
        start <= line.len(),
        line@.skip(start as int) == trim_start(line@),
{
    proof {
        assert(line@.skip(0) =~= line@);
    }
    skip_white_space(line, 0)
}

/// The opening line and every line of `all[from..]` up to the next heading.
fn collect_section(all: &Vec<Vec<char>>, from: usize, opening: Vec<char>) -> (section: Vec<char>)
    requires
        from <= all.len(),
    ensures
        section@ == opening@.push('\n') + section_body(chars_views(all@).skip(from as int)),
{
    let ghost texts = chars_views(all@);
    let mut section = opening;
    section.push('\n');
    let ghost first = section@;
    let mut i: usize = from;
    while i < all.len()
        invariant
            from <= i <= all.len(),
            texts == chars_views(all@),
            first == opening@.push('\n'),
            section@ + section_body(texts.skip(i as int)) == first + section_body(
                texts.skip(from as int),
            ),
        decreases all.len() - i,
    {
        let line = &all[i];
        let start: usize = skip_from_zero(line);
        proof {
            assert(texts.skip(i as int)[0] == line@);
            assert(texts.skip(i as int).drop_first() =~= texts.skip(i + 1));
            if start < line.len() {
                assert(line@.skip(start as int)[0] == line@[start as int]);
            }
        }
        if start < line.len() && line[start] == '#' {
            proof {
                assert(section@ =~= first + section_body(texts.skip(from as int)));
            }
            return section;
        }
        let ghost before = section@;
        append_chars(&mut section, line);
        section.push('\n');
        proof {
            assert(section@ + section_body(texts.skip(i + 1)) =~= before + (line@.push('\n')
                + section_body(texts.skip(i + 1))));
        }
        i = i + 1;
    }
    proof {
        assert(texts.skip(i as int) =~= Seq::empty());
        assert(section@ =~= first + section_body(texts.skip(from as int)));
    }
    section
}

/// Appends the characters of `more`.
pub(crate) fn append_chars(out: &mut Vec<char>, more: &Vec<char>)
    ensures
        final(out)@ == old(out)@ + more@,
{
    let mut i: usize = 0;
    proof {
        assert(out@ =~= old(out)@ + more@.take(0));
    }
    while i < more.len()
        invariant
            i <= more.len(),
            out@ == old(out)@ + more@.take(i as int),
        decreases more.len() - i,
    {
        out.push(more[i]);
        proof {
            assert(out@ =~= old(out)@ + more@.take(i + 1));
        }
        i = i + 1;
    }
    proof {
        assert(more@.take(i as int) =~= more@);
    }
}

/// The first run of exactly forty hexadecimal digits with no letter or digit on
/// either side, as it stands in the text.
pub fn find_forty_hex(text: &Vec<char>) -> (sha: Option<String>)
    ensures
        is_first_sha(text@, opt_view(sha)),
{
    let mut i: usize = 0;
    while i < text.len()
        invariant
            i <= text.len(),
            i == 0 || i == text.len() || !is_hex(text@[i - 1]),
            forall|j: int| 0 <= j < i ==> !#[trigger] sha_at(text@, j),
        decreases text.len() - i,
    {
        if !hex(text[i]) {
            proof {
                if sha_at(text@, i as int) {
                    assert(is_hex(text@[i as int]));
                }
            }
            i = i + 1;
            continue;
        }
        let start: usize = i;
        while i < text.len() && hex(text[i])
            invariant
                start <= i <= text.len(),
                forall|j: int| start <= j < i ==> #[trigger] is_hex(text@[j]),
            ensures
                i < text.len() ==> !is_hex(text@[i as int]),
            decreases text.len() - i,
        {
            i = i + 1;
        }
        let bounded_left: bool = start == 0 || !alnum(text[start - 1]);
        let bounded_right: bool = i == text.len() || !alnum(text[i]);
        if i - start == 40 && bounded_left && bounded_right {
            let found = from_range(text, start, i);
            proof {
                assert(sha_at(text@, start as int));
            }
            return Some(found);
        }
        proof {
            assert forall|j: int| start <= j < i implies !#[trigger] sha_at(text@, j) by {
                if sha_at(text@, j) {
                    if j > start {
                        assert(is_hex(text@[j - 1]));
                    } else if i < start + 40 {
                        assert(is_hex(text@[i as int]));
                    } else if start + 40 < i {
                        assert(is_hex(text@[start + 40]));
                    }
                }
            }
            if i < text.len() {
                assert forall|j: int| 0 <= j < i + 1 implies !#[trigger] sha_at(text@, j) by {
                    if j == i && sha_at(text@, j) {
                        assert(is_hex(text@[i as int]));
                    }
                }
            }
        }
        if i < text.len() {
            i = i + 1;
        }
    }
    proof {
        assert forall|j: int| !#[trigger] sha_at(text@, j) by {
            if j >= text@.len() || j < 0 {
            }
        }
    }
    None
}

/// Digits between the last `-gen` of a name, or a dash behind it, and its `.md` are the
/// generation that it names, as long as that fits in 32 bits.
pub proof fn law_what_a_file_name_names(head: Seq<char>, digits: Seq<char>)
    requires
        digits.len() > 0,
        all_digits(digits),
    ensures
        value_of(digits) <= u32::MAX ==> handoff_generation(head + "-gen"@ + digits + ".md"@)
            == Some(value_of(digits) as u32) && handoff_generation(
            head + "-gen"@ + "-"@ + digits + ".md"@,
        ) == Some(value_of(digits) as u32),
        value_of(digits) > u32::MAX ==> handoff_generation(head + "-gen"@ + digits + ".md"@)
            is None,
{
    assert(is_digit(digits[0]));
    let plain = head + "-gen"@ + digits;
    lemma_generation_of_stem(plain, plain + ".md"@);
    assert(plain =~= head + "-gen"@ + digits + Seq::<char>::empty());
    lemma_last_gen(head, digits, Seq::empty(), plain);
    assert(digits + Seq::<char>::empty() =~= digits);
    let spelled = head + "-gen"@ + "-"@ + digits;
    lemma_generation_of_stem(spelled, spelled + ".md"@);
    lemma_last_gen_dash(head, digits, spelled);
    assert(("-"@ + digits).skip(1) =~= digits) by {
        reveal_strlit("-");
    }
}

/// A name that names a generation ends in `.md` behind digits, which stand behind `-gen`,
/// or behind a dash behind it, and spell the generation.
pub proof fn law_only_such_names_name_a_generation(name: Seq<char>, generation: u32)
    requires
        handoff_generation(name) == Some(generation),
    ensures
        exists|head: Seq<char>, digits: Seq<char>| #[trigger]
            is_generation_name(name, head, digits) && value_of(digits) == generation,
{
    let stem = name.take(name.len() - ".md"@.len());
    let at = rfind(stem, "-gen"@, stem.len() as int)->0;
    lemma_rfind(stem, "-gen"@, stem.len() as int);
    let head = stem.take(at);
    let tail = stem.skip(at + "-gen"@.len());
    let md = name.subrange(name.len() - ".md"@.len(), name.len() as int);
    assert(name =~= stem + md);
    assert(stem =~= head + stem.subrange(at, at + "-gen"@.len()) + tail);
    if tail.len() > 0 && tail[0] == '-' {
        let digits = tail.skip(1);
        reveal_strlit("-");
        assert(tail =~= "-"@ + digits);
        assert(name =~= head + "-gen"@ + "-"@ + digits + ".md"@);
        assert(is_generation_name(name, head, digits));
    } else {
        assert(name =~= head + "-gen"@ + tail + ".md"@);
        assert(is_generation_name(name, head, tail));
    }
}

/// The name is `head`, `-gen`, perhaps a dash, `digits` and `.md`.
pub open spec fn is_generation_name(name: Seq<char>, head: Seq<char>, digits: Seq<char>) -> bool {
    &&& digits.len() > 0
    &&& all_digits(digits)
    &&& name == head + "-gen"@ + digits + ".md"@ || name == head + "-gen"@ + "-"@ + digits
        + ".md"@
}

} // verus!
