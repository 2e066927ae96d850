//! What holds of slugs, and of the file names that are made of them.

use vstd::prelude::*;
use crate::decimal::{decimal, lemma_decimal};
use crate::handoff_file::{
    alnum_chars, dashed, epic_slug_text, handoff_file_relpath_text, handoff_generation,
    is_slug_char, law_recovery_digest_names_no_generation, law_relpath_names_its_generation,
    lemma_epic_slug_is_slug, lemma_file_name_generation, recovery_digest_relpath_text,
    ref_slug_text,
};
use crate::text::{is_alnum, lower, lowered};
use crate::words::{
    join, lemma_rfind, lemma_run_len, lemma_run_len_is, lemma_runs_kept, occurs_at, rfind, run_len,
    runs,
};

verus! {

// ---------------------------------------------------------------------------
// Runs and joins
// ---------------------------------------------------------------------------

/// A character that is not kept parts the runs.
pub(crate) proof fn lemma_runs_parted(a: Seq<char>, c: char, b: Seq<char>, keep: spec_fn(char) -> bool)
    requires
        !keep(c),
    ensures
        runs(a.push(c) + b, keep) == runs(a, keep) + runs(b, keep),
    decreases a.len(),
{
    let s = a.push(c) + b;
    if a.len() == 0 {
        assert(s.drop_first() =~= b);
        assert(s[0] == c);
        assert(runs(a, keep) + runs(b, keep) =~= runs(b, keep));
    } else if !keep(a[0]) {
        assert(s[0] == a[0]);
        assert(s.drop_first() =~= a.drop_first().push(c) + b);
        lemma_runs_parted(a.drop_first(), c, b, keep);
    } else {
        lemma_run_len(a, keep);
        let n = run_len(a, keep) as int;
        assert forall|i: int| 0 <= i < n implies keep(#[trigger] s[i]) by {
            assert(s[i] == a[i]);
        }
        assert(!keep(s[n])) by {
            if n < a.len() {
                assert(s[n] == a[n]);
            } else {
                assert(s[n] == c);
            }
        }
        assert(s[0] == a[0]);
        lemma_run_len_is(s, keep, n);
        assert(s.take(n) =~= a.take(n));
        let rest = a.skip(n);
        assert(s.skip(n) =~= rest.push(c) + b);
        lemma_runs_parted(rest, c, b, keep);
        assert(runs(s, keep) =~= runs(a, keep) + runs(b, keep));
    }
}

/// A text of kept characters is one run.
pub(crate) proof fn lemma_one_run(s: Seq<char>, keep: spec_fn(char) -> bool)
    requires
        s.len() > 0,
        forall|i: int| 0 <= i < s.len() ==> keep(#[trigger] s[i]),
    ensures
        runs(s, keep) == seq![s],
{
    lemma_run_len_is(s, keep, s.len() as int);
    assert(keep(s[0]));
    assert(s.take(s.len() as int) =~= s);
    let rest = s.skip(s.len() as int);
    assert(rest =~= Seq::empty());
    assert(runs(rest, keep) =~= Seq::empty());
    assert(runs(s, keep) =~= seq![s]);
}

/// The parts are runs: letters and digits, one at least.
spec fn are_runs(parts: Seq<Seq<char>>) -> bool {
    forall|k: int| 0 <= k < parts.len() ==> is_run(#[trigger] parts[k])
}

spec fn is_run(s: Seq<char>) -> bool {
    s.len() > 0 && forall|i: int| 0 <= i < s.len() ==> is_alnum(#[trigger] s[i])
}

proof fn lemma_are_runs(s: Seq<char>)
    ensures
        are_runs(runs(s, alnum_chars())),
{
    let parts = runs(s, alnum_chars());
    lemma_runs_kept(s, alnum_chars());
    assert forall|k: int| 0 <= k < parts.len() implies is_run(#[trigger] parts[k]) by {
        assert forall|i: int| 0 <= i < parts[k].len() implies is_alnum(#[trigger] parts[k][i]) by {
            assert(alnum_chars()(parts[k][i]));
        }
    }
}

/// The text is neither empty nor begins or ends with a dash, and no two dashes follow
/// each other.
pub open spec fn is_tidy(s: Seq<char>) -> bool {
    &&& s.len() > 0
    &&& s[0] != '-'
    &&& s.last() != '-'
    &&& forall|i: int| 0 <= i < s.len() - 1 ==> !(#[trigger] s[i] == '-' && s[i + 1] == '-')
}

/// A tidy text, a dash and a run make a tidy text.
proof fn lemma_tidy_more(head: Seq<char>, last: Seq<char>)
    requires
        is_tidy(head),
        is_run(last),
    ensures
        is_tidy(head.push('-') + last),
{
    let all = head.push('-') + last;
    assert(is_alnum(last[0]) && is_alnum(last[last.len() - 1]));
    assert(all[0] == head[0]);
    assert(all.last() == last[last.len() - 1]);
    assert forall|i: int| 0 <= i < all.len() - 1 implies !(#[trigger] all[i] == '-' && all[i + 1]
        == '-') by {
        if i + 1 < head.len() {
            assert(all[i] == head[i] && all[i + 1] == head[i + 1]);
        } else if i + 1 == head.len() {
            assert(all[i] == head[head.len() - 1]);
        } else if i == head.len() {
            assert(all[i + 1] == last[0]);
        } else {
            assert(all[i] == last[i - head.len() - 1]);
            assert(is_alnum(last[i - head.len() - 1]));
        }
    }
}

proof fn lemma_run_is_tidy(s: Seq<char>)
    requires
        is_run(s),
    ensures
        is_tidy(s),
{
    assert(is_alnum(s[0]) && is_alnum(s[s.len() - 1]));
    assert forall|i: int| 0 <= i < s.len() - 1 implies !(#[trigger] s[i] == '-' && s[i + 1]
        == '-') by {
        assert(is_alnum(s[i]));
    }
}

proof fn lemma_filter_more(head: Seq<char>, last: Seq<char>)
    requires
        is_run(last),
    ensures
        (head.push('-') + last).filter(alnum_chars()) == head.filter(alnum_chars()) + last,
{
    let keep = alnum_chars();
    lemma_all_kept(last);
    Seq::filter_distributes_over_add(head.push('-'), last, keep);
    reveal(Seq::filter);
    assert(head.push('-').drop_last() =~= head);
    assert(!keep('-'));
    assert(head.push('-').filter(keep) == head.filter(keep));
}

proof fn lemma_run_is_its_run(s: Seq<char>)
    requires
        is_run(s),
    ensures
        runs(s, alnum_chars()) == seq![s],
{
    let keep = alnum_chars();
    assert forall|i: int| 0 <= i < s.len() implies keep(#[trigger] s[i]) by {
        assert(is_alnum(s[i]));
    }
    lemma_one_run(s, keep);
}

/// Runs that are joined by dashes are the runs of the joined text, which is tidy and keeps
/// every letter and digit.
proof fn lemma_joined(parts: Seq<Seq<char>>)
    requires
        parts.len() > 0,
        are_runs(parts),
    ensures
        runs(join(parts, "-"@), alnum_chars()) == parts,
        is_tidy(join(parts, "-"@)),
        join(parts, "-"@).filter(alnum_chars()) == flat(parts),
    decreases parts.len(),
{
    let last = parts.last();
    assert(is_run(parts[parts.len() - 1]));
    lemma_run_is_its_run(last);
    let init = parts.drop_last();
    if parts.len() == 1 {
        assert(parts =~= seq![last]);
        lemma_run_is_tidy(last);
        lemma_all_kept(last);
        assert(flat(init) =~= Seq::empty());
        assert(flat(parts) =~= last);
    } else {
        assert(are_runs(init)) by {
            assert forall|k: int| 0 <= k < init.len() implies is_run(#[trigger] init[k]) by {
                assert(init[k] == parts[k]);
            }
        }
        lemma_joined(init);
        let head = join(init, "-"@);
        let all = join(parts, "-"@);
        assert(all =~= head.push('-') + last) by {
            reveal_strlit("-");
        }
        lemma_runs_parted(head, '-', last, alnum_chars());
        assert(init + seq![last] =~= parts);
        lemma_tidy_more(head, last);
        lemma_filter_more(head, last);
    }
}

/// The parts one after the other.
spec fn flat(parts: Seq<Seq<char>>) -> Seq<char>
    decreases parts.len(),
{
    if parts.len() == 0 {
        Seq::empty()
    } else {
        flat(parts.drop_last()) + parts.last()
    }
}

proof fn lemma_flat_front(first: Seq<char>, rest: Seq<Seq<char>>)
    ensures
        flat(seq![first] + rest) == first + flat(rest),
    decreases rest.len(),
{
    let all = seq![first] + rest;
    if rest.len() == 0 {
        assert(all.drop_last() =~= Seq::empty());
        assert(flat(all.drop_last()) =~= Seq::empty());
        assert(flat(all) =~= first + flat(rest));
    } else {
        lemma_flat_front(first, rest.drop_last());
        assert(all.drop_last() =~= seq![first] + rest.drop_last());
        assert(flat(all) =~= first + flat(rest));
    }
}

proof fn lemma_all_kept(s: Seq<char>)
    requires
        forall|i: int| 0 <= i < s.len() ==> is_alnum(#[trigger] s[i]),
    ensures
        s.filter(alnum_chars()) == s,
    decreases s.len(),
{
    reveal(Seq::filter);
    if s.len() > 0 {
        let init = s.drop_last();
        assert forall|i: int| 0 <= i < init.len() implies is_alnum(#[trigger] init[i]) by {
            assert(init[i] == s[i]);
        }
        lemma_all_kept(init);
        assert(is_alnum(s[s.len() - 1]));
        assert(s.filter(alnum_chars()) =~= s);
    } else {
        assert(s.filter(alnum_chars()) =~= s);
    }
}

/// The runs one after the other are the kept characters.
proof fn lemma_flat_runs(s: Seq<char>)
    ensures
        flat(runs(s, alnum_chars())) == s.filter(alnum_chars()),
    decreases s.len(),
{
    reveal(Seq::filter);
    let keep = alnum_chars();
    if s.len() == 0 {
        assert(flat(runs(s, keep)) =~= s.filter(keep));
    } else if !keep(s[0]) {
        lemma_flat_runs(s.drop_first());
        let one = seq![s[0]];
        assert(s =~= one + s.drop_first());
        Seq::filter_distributes_over_add(one, s.drop_first(), keep);
        assert(one.drop_last() =~= Seq::empty());
        assert(one.drop_last().filter(keep) =~= Seq::empty());
        assert(one.filter(keep) =~= Seq::empty());
        assert(s.filter(keep) =~= s.drop_first().filter(keep));
    } else {
        lemma_run_len(s, keep);
        let n = run_len(s, keep) as int;
        let first = s.take(n);
        assert forall|i: int| 0 <= i < first.len() implies is_alnum(#[trigger] first[i]) by {
            assert(first[i] == s[i]);
            assert(keep(s[i]));
        }
        lemma_all_kept(first);
        lemma_flat_runs(s.skip(n));
        lemma_flat_front(first, runs(s.skip(n), keep));
        assert(s =~= first + s.skip(n));
        Seq::filter_distributes_over_add(first, s.skip(n), keep);
    }
}

// ---------------------------------------------------------------------------
// Small letters
// ---------------------------------------------------------------------------

spec fn all_lowered(parts: Seq<Seq<char>>) -> Seq<Seq<char>> {
    parts.map_values(|p: Seq<char>| lowered(p))
}

proof fn lemma_lower_kept(c: char)
    ensures
        is_alnum(lower(c)) == is_alnum(c),
        (lower(c) == '-') == (c == '-'),
        lower(lower(c)) == lower(c),
{
}

proof fn lemma_lowered_join(parts: Seq<Seq<char>>)
    ensures
        lowered(join(parts, "-"@)) == join(all_lowered(parts), "-"@),
    decreases parts.len(),
{
    reveal_strlit("-");
    if parts.len() > 1 {
        lemma_lowered_join(parts.drop_last());
        assert(all_lowered(parts).drop_last() =~= all_lowered(parts.drop_last()));
        assert(all_lowered(parts).last() == lowered(parts.last()));
        assert(lowered("-"@) =~= "-"@);
    }
    assert(lowered(join(parts, "-"@)) =~= join(all_lowered(parts), "-"@));
}

proof fn lemma_lowered_filter(s: Seq<char>)
    ensures
        lowered(s).filter(alnum_chars()) == lowered(s.filter(alnum_chars())),
    decreases s.len(),
{
    reveal(Seq::filter);
    let keep = alnum_chars();
    if s.len() > 0 {
        lemma_lowered_filter(s.drop_last());
        lemma_lower_kept(s.last());
        assert(lowered(s).drop_last() =~= lowered(s.drop_last()));
        assert(lowered(s).last() == lower(s.last()));
    }
    assert(lowered(s).filter(keep) =~= lowered(s.filter(keep)));
}

proof fn lemma_lowered_twice(s: Seq<char>)
    ensures
        lowered(lowered(s)) == lowered(s),
{
    assert forall|i: int| 0 <= i < s.len() implies lowered(lowered(s))[i] == #[trigger] lowered(
        s,
    )[i] by {
        lemma_lower_kept(s[i]);
    }
    assert(lowered(lowered(s)) =~= lowered(s));
}

// ---------------------------------------------------------------------------
// Slugs
// ---------------------------------------------------------------------------

/// The slug of a text with a letter or digit is tidy, keeps all the letters and digits in
/// their order, in small letters, and is its own slug.
pub proof fn law_slugs_are_tidy(input: Seq<char>, fallback: Seq<char>, other: Seq<char>)
    requires
        runs(input, alnum_chars()).len() > 0,
    ensures
        ({
            let slug = ref_slug_text(input, fallback);
            &&& is_tidy(slug)
            &&& slug.filter(alnum_chars()) == lowered(input.filter(alnum_chars()))
            &&& ref_slug_text(slug, other) == slug
        }),
{
    let parts = runs(input, alnum_chars());
    let plain = dashed(input);
    let slug = ref_slug_text(input, fallback);
    lemma_are_runs(input);
    lemma_joined(parts);
    assert forall|i: int| 0 <= i < plain.len() implies (#[trigger] slug[i] == '-') == (plain[i]
        == '-') by {
        lemma_lower_kept(plain[i]);
    }
    assert(slug.last() == slug[slug.len() - 1]);
    assert forall|i: int| 0 <= i < slug.len() - 1 implies !(#[trigger] slug[i] == '-' && slug[i
        + 1] == '-') by {
        assert((slug[i] == '-') == (plain[i] == '-'));
        assert((slug[i + 1] == '-') == (plain[i + 1] == '-'));
    }
    assert(slug[0] != '-' && slug[slug.len() - 1] != '-');
    lemma_lowered_filter(plain);
    lemma_flat_runs(input);
    // The slug is made of the runs in small letters, which are the slug's own runs.
    let small = all_lowered(parts);
    lemma_lowered_join(parts);
    assert forall|k: int| 0 <= k < small.len() implies is_run(#[trigger] small[k]) by {
        assert(is_run(parts[k]));
        assert forall|i: int| 0 <= i < small[k].len() implies is_alnum(#[trigger] small[k][i]) by {
            assert(is_alnum(parts[k][i]));
            lemma_lower_kept(parts[k][i]);
        }
    }
    lemma_joined(small);
    lemma_lowered_twice(plain);
}

/// The slug of a run's name is tidy and is its own slug, whatever the name.
pub proof fn law_epic_slugs_are_tidy(epic: Seq<char>)
    ensures
        is_tidy(epic_slug_text(epic)),
        epic_slug_text(epic_slug_text(epic)) == epic_slug_text(epic),
{
    reveal_strlit("epic");
    if runs(epic, alnum_chars()).len() > 0 {
        law_slugs_are_tidy(epic, "epic"@, "epic"@);
    } else {
        let word = "epic"@;
        assert forall|i: int| 0 <= i < word.len() implies alnum_chars()(#[trigger] word[i]) by {}
        lemma_one_run(word, alnum_chars());
        assert(runs(word, alnum_chars()).len() == 1);
        assert(join(seq![word], "-"@) == word);
        assert(lowered(word) =~= word);
    }
}

// ---------------------------------------------------------------------------
// File names
// ---------------------------------------------------------------------------

/// The name of the file at a path: what follows the last slash.
pub open spec fn file_name(path: Seq<char>) -> Seq<char> {
    match rfind(path, "/"@, path.len() as int) {
        Some(at) => path.skip(at + 1),
        None => path,
    }
}

proof fn lemma_file_name(dir: Seq<char>, name: Seq<char>)
    requires
        forall|i: int| 0 <= i < name.len() ==> #[trigger] name[i] != '/',
    ensures
        file_name(dir.push('/') + name) == name,
{
    reveal_strlit("/");
    let path = dir.push('/') + name;
    let at = dir.len() as int;
    assert(path.subrange(at, at + 1) =~= "/"@);
    assert(occurs_at(path, "/"@, at));
    lemma_rfind(path, "/"@, path.len() as int);
    let found = rfind(path, "/"@, path.len() as int)->0;
    if found > at {
        assert(path.subrange(found, found + 1)[0] == path[found]);
        assert(path[found] == name[found - at - 1]);
    }
    assert(path.skip(at + 1) =~= name);
}

proof fn lemma_no_slash(epic: Seq<char>, generation: u32, end: Seq<char>)
    requires
        forall|i: int| 0 <= i < end.len() ==> #[trigger] end[i] != '/',
    ensures
        ({
            let name = epic_slug_text(epic) + "-gen"@ + decimal(generation as nat) + end;
            forall|i: int| 0 <= i < name.len() ==> #[trigger] name[i] != '/'
        }),
{
    reveal_strlit("-gen");
    let slug = epic_slug_text(epic);
    let digits = decimal(generation as nat);
    lemma_epic_slug_is_slug(epic);
    lemma_decimal(generation as nat);
    let name = slug + "-gen"@ + digits + end;
    assert forall|i: int| 0 <= i < name.len() implies #[trigger] name[i] != '/' by {
        if i < slug.len() {
            assert(is_slug_char(slug[i]));
            assert(name[i] == slug[i]);
        } else if i < slug.len() + 4 {
            assert(name[i] == "-gen"@[i - slug.len()]);
        } else if i < slug.len() + 4 + digits.len() {
            assert(name[i] == digits[i - slug.len() - 4]);
            assert(crate::text::is_digit(digits[i - slug.len() - 4]));
        } else {
            assert(name[i] == end[i - slug.len() - 4 - digits.len()]);
        }
    }
}

/// The name of a handoff file names its generation, and so does the spelling with one more
/// dash, whatever the run is called.
pub proof fn law_file_names_name_their_generation(epic: Seq<char>, generation: u32)
    ensures
        file_name(handoff_file_relpath_text(epic, generation)) == epic_slug_text(epic) + "-gen"@
            + decimal(generation as nat) + ".md"@,
        handoff_generation(file_name(handoff_file_relpath_text(epic, generation))) == Some(
            generation,
        ),
        handoff_generation(
            epic_slug_text(epic) + "-gen"@ + "-"@ + decimal(generation as nat) + ".md"@,
        ) == Some(generation),
{
    reveal_strlit(".md");
    let slug = epic_slug_text(epic);
    let name = slug + "-gen"@ + decimal(generation as nat) + ".md"@;
    lemma_no_slash(epic, generation, ".md"@);
    lemma_path(name);
    let path = handoff_file_relpath_text(epic, generation);
    assert(path =~= ".maestro/handoffs/"@ + name);
    lemma_file_name_generation(slug, generation);
}

proof fn lemma_path(name: Seq<char>)
    requires
        forall|i: int| 0 <= i < name.len() ==> #[trigger] name[i] != '/',
    ensures
        file_name(".maestro/handoffs/"@ + name) == name,
{
    reveal_strlit(".maestro/handoffs/");
    reveal_strlit(".maestro/handoffs");
    assert(".maestro/handoffs/"@ =~= ".maestro/handoffs"@.push('/'));
    lemma_file_name(".maestro/handoffs"@, name);
}

/// A recovery digest has its own file name, which names no generation, and its path is no
/// handoff file's, of whatever run and generation.
pub proof fn law_recovery_digests_are_no_handoffs(
    epic: Seq<char>,
    generation: u32,
    other: Seq<char>,
    other_generation: u32,
)
    ensures
        file_name(recovery_digest_relpath_text(epic, generation)) == epic_slug_text(epic)
            + "-gen"@ + decimal(generation as nat) + "-recovery.md"@,
        handoff_generation(file_name(recovery_digest_relpath_text(epic, generation))) is None,
        recovery_digest_relpath_text(epic, generation) != handoff_file_relpath_text(
            other,
            other_generation,
        ),
{
    reveal_strlit("-recovery.md");
    let slug = epic_slug_text(epic);
    let name = slug + "-gen"@ + decimal(generation as nat) + "-recovery.md"@;
    lemma_no_slash(epic, generation, "-recovery.md"@);
    lemma_path(name);
    let path = recovery_digest_relpath_text(epic, generation);
    assert(path =~= ".maestro/handoffs/"@ + name);
    lemma_file_name_generation(slug, generation);
    law_recovery_digest_names_no_generation(epic, generation);
    law_relpath_names_its_generation(other, other_generation);
}

} // verus!
