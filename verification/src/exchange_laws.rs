//! What holds of instructions and the replies to them together.

use vstd::prelude::*;
use crate::decimal::{decimal, lemma_decimal};
use crate::handoff_file::{
    epic_slug_text, handoff_file_relpath_text, is_slug_char, lemma_epic_slug_is_slug,
};
use crate::injector::InjectorModel;
use crate::ladder::{
    brief_text, close_tag, expected_ack_text, expected_written_text, open_tag, tag_value,
    PendingKind, ACK_TAG, WRITTEN_TAG,
};
use crate::marker_values::{
    lemma_values_single_line, soft_winddown_episode_ack_value_text,
    winddown_allclear_episode_ack_value_text,
};
use crate::pending::PendingModel;
use crate::prompt_text::{
    lemma_handoff_lines, lemma_park_lines, lemma_winddown_lines, ALLCLEAR_1, ALLCLEAR_2, HANDOFF_1,
    HANDOFF_2, HANDOFF_3, HANDOFF_4, HANDOFF_FIX_1, HANDOFF_FIX_2, HANDOFF_FIX_3, HANDOFF_FIX_4,
    HANDOFF_FIX_5, HANDOFF_FIX_6, HANDOFF_FIX_7, PARK_1, PARK_2, PARK_3, PARK_4, PARK_FIX_1,
    PARK_FIX_2, PARK_FIX_3, PARK_FIX_4, PARK_FIX_5, PARK_FIX_6, PARK_FIX_7, WINDDOWN_1, WINDDOWN_2,
};
use crate::prompts::{
    lemma_handoff_corrective_instruction_single_line, lemma_handoff_instruction_single_line,
    lemma_park_corrective_instruction_single_line, lemma_park_instruction_single_line,
    lemma_winddown_briefs_single_line, scheduling_clause_text,
};
use crate::session::SupervisorState;
use crate::table::{lemma_lookup, lemma_put, lookup};
use crate::text::{is_digit, is_white_space, no_bracket, single_line};
use crate::words::{
    collapse, contains, ends_with, find, join, lemma_find, lemma_run_len, lemma_run_len_is,
    non_space, occurs_at, run_len, runs, space, starts_with, trim,
};

verus! {

/// A value between its tags.
pub open spec fn marker(tag: Seq<char>, value: Seq<char>) -> Seq<char> {
    open_tag(tag) + value + close_tag(tag)
}

// ---------------------------------------------------------------------------
// Instructions
// ---------------------------------------------------------------------------

/// A value between two pieces of which one ends with its opening tag and the other
/// begins with its closing tag stands there as a marker.
proof fn lemma_marker_between(
    around: Seq<char>,
    front: Seq<char>,
    tag: Seq<char>,
    value: Seq<char>,
    back: Seq<char>,
)
    requires
        ends_with(front, open_tag(tag)),
        starts_with(back, close_tag(tag)),
    ensures
        contains(around + front + value + back, marker(tag, value)),
{
    let s = around + front + value + back;
    let open = open_tag(tag);
    let close = close_tag(tag);
    let at = around.len() + front.len() - open.len();
    let m = marker(tag, value);
    assert(front =~= front.take(front.len() - open.len()) + open);
    assert(back =~= close + back.skip(close.len() as int));
    assert(s.subrange(at, at + m.len()) =~= m);
    assert(occurs_at(s, m, at));
}

/// What stands in a text stands in a longer one.
pub(crate) broadcast proof fn lemma_contains_more(s: Seq<char>, more: Seq<char>, pat: Seq<char>)
    requires
        contains(s, pat),
    ensures
        #[trigger] contains(s + more, pat),
{
    let i = choose|i: int| occurs_at(s, pat, i);
    assert((s + more).subrange(i, i + pat.len()) =~= s.subrange(i, i + pat.len()));
    assert(occurs_at(s + more, pat, i));
}

proof fn lemma_tags()
    ensures
        open_tag(ACK_TAG@) == "<samurai-ack>"@,
        close_tag(ACK_TAG@) == "</samurai-ack>"@,
        open_tag(WRITTEN_TAG@) == "<samurai-handoff-written>"@,
        close_tag(WRITTEN_TAG@) == "</samurai-handoff-written>"@,
{
    reveal_strlit("<");
    reveal_strlit("</");
    reveal_strlit(">");
    reveal_strlit("samurai-ack");
    reveal_strlit("samurai-handoff-written");
    reveal_strlit("<samurai-ack>");
    reveal_strlit("</samurai-ack>");
    reveal_strlit("<samurai-handoff-written>");
    reveal_strlit("</samurai-handoff-written>");
    assert(open_tag(ACK_TAG@) =~= "<samurai-ack>"@);
    assert(close_tag(ACK_TAG@) =~= "</samurai-ack>"@);
    assert(open_tag(WRITTEN_TAG@) =~= "<samurai-handoff-written>"@);
    assert(close_tag(WRITTEN_TAG@) =~= "</samurai-handoff-written>"@);
}

/// An instruction asks for what is expected of its session: its text holds the marker
/// with the expected acknowledgement, and the written marker where there is one. So it
/// is in the first round and in the corrective one.
pub proof fn law_a_brief_asks_for_its_markers(
    kind: PendingKind,
    epic: Seq<char>,
    generation: u32,
    corrective: bool,
    failure: Seq<char>,
    episode: u32,
)
    ensures
        contains(
            brief_text(kind, epic, generation, corrective, failure, episode),
            marker(ACK_TAG@, expected_ack_text(kind, generation, corrective, episode)),
        ),
        expected_written_text(kind, generation, corrective) matches Some(value) ==> contains(
            brief_text(kind, epic, generation, corrective, failure, episode),
            marker(WRITTEN_TAG@, value),
        ),
{
    lemma_tags();
    let ack = expected_ack_text(kind, generation, corrective, episode);
    match kind {
        PendingKind::Handoff => lemma_handoff_asks(epic, generation, corrective, failure),
        PendingKind::Park => lemma_park_asks(epic, generation, corrective, failure),
        PendingKind::SoftWinddown => {
            broadcast use lemma_contains_more;

            lemma_winddown_lines();
            lemma_marker_between(Seq::empty(), WINDDOWN_1@, ACK_TAG@, ack, WINDDOWN_2@);
            assert(Seq::empty() + WINDDOWN_1@ =~= WINDDOWN_1@);
        },
        PendingKind::WinddownAllClear => {
            lemma_winddown_lines();
            lemma_marker_between(Seq::empty(), ALLCLEAR_1@, ACK_TAG@, ack, ALLCLEAR_2@);
            assert(Seq::empty() + ALLCLEAR_1@ =~= ALLCLEAR_1@);
        },
    }
}

proof fn lemma_handoff_asks(
    epic: Seq<char>,
    generation: u32,
    corrective: bool,
    failure: Seq<char>,
)
    ensures
        ({
            let text = brief_text(PendingKind::Handoff, epic, generation, corrective, failure, 0);
            let ack = expected_ack_text(PendingKind::Handoff, generation, corrective, 0);
            let written = expected_written_text(PendingKind::Handoff, generation, corrective)->0;
            contains(text, marker(ACK_TAG@, ack)) && contains(text, marker(WRITTEN_TAG@, written))
        }),
{
    broadcast use lemma_contains_more;

    lemma_tags();
    lemma_handoff_lines();
    let ack = expected_ack_text(PendingKind::Handoff, generation, corrective, 0);
    let written = expected_written_text(PendingKind::Handoff, generation, corrective)->0;
    let path = handoff_file_relpath_text(epic, generation);
    if corrective {
        let a = HANDOFF_FIX_1@ + collapse(failure) + HANDOFF_FIX_2@ + decimal(generation as nat)
            + HANDOFF_FIX_3@ + path;
        let b = a + HANDOFF_FIX_4@ + ack + HANDOFF_FIX_5@ + path;
        lemma_marker_between(a, HANDOFF_FIX_4@, ACK_TAG@, ack, HANDOFF_FIX_5@);
        lemma_marker_between(b, HANDOFF_FIX_6@, WRITTEN_TAG@, written, HANDOFF_FIX_7@);
    } else {
        let b = HANDOFF_1@ + ack + HANDOFF_2@ + path;
        lemma_marker_between(Seq::empty(), HANDOFF_1@, ACK_TAG@, ack, HANDOFF_2@);
        assert(Seq::empty() + HANDOFF_1@ =~= HANDOFF_1@);
        lemma_marker_between(b, HANDOFF_3@, WRITTEN_TAG@, written, HANDOFF_4@);
    }
}

proof fn lemma_park_asks(epic: Seq<char>, generation: u32, corrective: bool, failure: Seq<char>)
    ensures
        ({
            let text = brief_text(PendingKind::Park, epic, generation, corrective, failure, 0);
            let ack = expected_ack_text(PendingKind::Park, generation, corrective, 0);
            let written = expected_written_text(PendingKind::Park, generation, corrective)->0;
            contains(text, marker(ACK_TAG@, ack)) && contains(text, marker(WRITTEN_TAG@, written))
        }),
{
    broadcast use lemma_contains_more;

    lemma_tags();
    lemma_park_lines();
    let ack = expected_ack_text(PendingKind::Park, generation, corrective, 0);
    let written = expected_written_text(PendingKind::Park, generation, corrective)->0;
    let path = handoff_file_relpath_text(epic, generation);
    if corrective {
        let a = PARK_FIX_1@ + collapse(failure) + PARK_FIX_2@ + decimal(generation as nat)
            + PARK_FIX_3@ + path;
        let b = a + PARK_FIX_4@ + ack + PARK_FIX_5@ + path;
        lemma_marker_between(a, PARK_FIX_4@, ACK_TAG@, ack, PARK_FIX_5@);
        lemma_marker_between(b, PARK_FIX_6@, WRITTEN_TAG@, written, PARK_FIX_7@);
    } else {
        let b = PARK_1@ + ack + PARK_2@ + path;
        lemma_marker_between(Seq::empty(), PARK_1@, ACK_TAG@, ack, PARK_2@);
        assert(Seq::empty() + PARK_1@ =~= PARK_1@);
        lemma_marker_between(b, PARK_3@, WRITTEN_TAG@, written, PARK_4@);
    }
}

// ---------------------------------------------------------------------------
// Replies
// ---------------------------------------------------------------------------

/// The value can stand between tags and be read back: no angle bracket opens in it,
/// and no white space is at its ends.
pub open spec fn plain_value(value: Seq<char>) -> bool {
    &&& value.len() > 0
    &&& !is_white_space(value[0])
    &&& !is_white_space(value.last())
    &&& no_bracket(value)
}

/// What stands between the tags is read from a reply, without the white space at its ends,
/// whatever stands around the tags, unless the opening tag stands in the reply before.
pub proof fn law_what_stands_between_the_tags_is_read(
    before: Seq<char>,
    tag: Seq<char>,
    inner: Seq<char>,
    after: Seq<char>,
)
    requires
        no_bracket(tag),
        no_bracket(inner),
        !contains(before, open_tag(tag)),
    ensures
        tag_value(before + marker(tag, inner) + after, tag) == Some(trim(inner)),
{
    reveal_strlit("<");
    reveal_strlit("</");
    reveal_strlit(">");
    let open = open_tag(tag);
    let close = close_tag(tag);
    let s = before + marker(tag, inner) + after;
    let n = before.len() as int;
    let start = n + open.len();
    let end = start + inner.len();
    assert(s.subrange(n, start) =~= open);
    assert(occurs_at(s, open, n));
    lemma_find(s, open, 0);
    let at = find(s, open, 0)->0;
    assert(at == n) by {
        if at < n {
            assert(s.subrange(at, at + open.len()) == open);
            if at + open.len() <= n {
                assert(before.subrange(at, at + open.len()) =~= open);
                assert(occurs_at(before, open, at));
            } else {
                assert(s[n] == open[0]);
                assert(s.subrange(at, at + open.len())[n - at] == s[n]);
                assert(open[n - at] != '<');
            }
        }
    }
    assert(s.subrange(end, end + close.len()) =~= close);
    assert(occurs_at(s, close, end));
    lemma_find(s, close, start);
    let stop = find(s, close, start)->0;
    assert(stop == end) by {
        if stop < end {
            assert(s.subrange(stop, stop + close.len())[0] == close[0]);
            assert(s[stop] == inner[stop - start]);
        }
    }
    assert(s.subrange(start, end) =~= inner);
}

/// A marker is read from a reply, whatever stands around it, unless the opening tag
/// stands in the reply before.
pub proof fn law_a_marker_is_read(
    before: Seq<char>,
    tag: Seq<char>,
    value: Seq<char>,
    after: Seq<char>,
)
    requires
        no_bracket(tag),
        plain_value(value),
        !contains(before, open_tag(tag)),
    ensures
        tag_value(before + marker(tag, value) + after, tag) == Some(value),
{
    law_what_stands_between_the_tags_is_read(before, tag, value, after);
    lemma_plain_trim(value);
}

/// White space between the tags and the value does not count.
pub proof fn law_a_padded_marker_is_read(
    before: Seq<char>,
    tag: Seq<char>,
    lead: Seq<char>,
    value: Seq<char>,
    trail: Seq<char>,
    after: Seq<char>,
)
    requires
        no_bracket(tag),
        plain_value(value),
        forall|i: int| 0 <= i < lead.len() ==> is_white_space(#[trigger] lead[i]),
        forall|i: int| 0 <= i < trail.len() ==> is_white_space(#[trigger] trail[i]),
        !contains(before, open_tag(tag)),
    ensures
        tag_value(before + marker(tag, lead + value + trail) + after, tag) == Some(value),
{
    let inner = lead + value + trail;
    assert forall|i: int| 0 <= i < inner.len() implies #[trigger] inner[i] != '<' by {
        if i < lead.len() {
            assert(inner[i] == lead[i]);
        } else if i < lead.len() + value.len() {
            assert(inner[i] == value[i - lead.len()]);
        } else {
            assert(inner[i] == trail[i - lead.len() - value.len()]);
        }
    }
    law_what_stands_between_the_tags_is_read(before, tag, inner, after);
    let at = crate::text_laws::law_what_is_trimmed(inner);
    let n = lead.len() as int;
    let m = n + value.len();
    assert(inner[n] == value[0]);
    assert(inner[m - 1] == value[value.len() - 1]);
    assert(at.0 <= n && at.1 >= m);
    assert(at.0 == n) by {
        if at.0 < n {
            assert(trim(inner)[0] == inner[at.0]);
            assert(inner[at.0] == lead[at.0]);
        }
    }
    assert(at.1 == m) by {
        if at.1 > m {
            assert(trim(inner).last() == inner[at.1 - 1]);
            assert(inner[at.1 - 1] == trail[at.1 - 1 - m]);
        }
    }
    assert(inner.subrange(n, m) =~= value);
}

/// A reply without the opening tag carries no marker, nor one that does not close it.
pub proof fn law_what_is_no_marker(text: Seq<char>, tag: Seq<char>)
    ensures
        !contains(text, open_tag(tag)) ==> tag_value(text, tag) is None,
        !contains(text, close_tag(tag)) ==> tag_value(text, tag) is None,
{
    lemma_find(text, open_tag(tag), 0);
    if find(text, open_tag(tag), 0) is Some {
        let at = find(text, open_tag(tag), 0)->0;
        assert(occurs_at(text, open_tag(tag), at));
        let start = at + open_tag(tag).len();
        lemma_find(text, close_tag(tag), start);
        if find(text, close_tag(tag), start) is Some {
            let end = find(text, close_tag(tag), start)->0;
            assert(occurs_at(text, close_tag(tag), end));
        }
    }
}

/// The markers as a reply spells them.
pub proof fn law_how_a_marker_is_spelled(value: Seq<char>)
    ensures
        marker(ACK_TAG@, value) == "<samurai-ack>"@ + value + "</samurai-ack>"@,
        marker(WRITTEN_TAG@, value) == "<samurai-handoff-written>"@ + value
            + "</samurai-handoff-written>"@,
{
    lemma_tags();
}

proof fn lemma_plain_trim(value: Seq<char>)
    requires
        plain_value(value),
    ensures
        trim(value) == value,
{
    assert(!space()(value[0]));
    lemma_run_len_is(value, space(), 0);
    assert(value.skip(0) =~= value);
}

proof fn lemma_numbered_plain(prefix: Seq<char>, n: u32, suffix: Seq<char>)
    requires
        prefix.len() > 0,
        !is_white_space(prefix[0]),
        no_bracket(prefix),
        no_bracket(suffix),
        suffix.len() > 0 ==> !is_white_space(suffix.last()),
    ensures
        plain_value(prefix + decimal(n as nat) + suffix),
{
    let d = decimal(n as nat);
    lemma_decimal(n as nat);
    let v = prefix + d + suffix;
    assert(is_digit(d.last()));
    assert forall|i: int| 0 <= i < v.len() implies #[trigger] v[i] != '<' by {
        if i < prefix.len() {
            assert(v[i] == prefix[i]);
        } else if i < prefix.len() + d.len() {
            assert(is_digit(d[i - prefix.len()]));
        } else {
            assert(v[i] == suffix[i - prefix.len() - d.len()]);
        }
    }
}

/// The values that a handoff or a park expects can stand between tags.
proof fn lemma_expected_plain(kind: PendingKind, generation: u32, corrective: bool)
    requires
        !kind.ack_only(),
    ensures
        plain_value(expected_ack_text(kind, generation, corrective, 0)),
        plain_value(expected_written_text(kind, generation, corrective)->0),
        expected_written_text(kind, generation, corrective) is Some,
{
    reveal_strlit("handoff gen-");
    reveal_strlit("park gen-");
    reveal_strlit("gen-");
    reveal_strlit(" retry");
    reveal_strlit(" park");
    reveal_strlit(" park retry");
    let d = decimal(generation as nat);
    let prefix = if kind is Handoff {
        "handoff gen-"@
    } else {
        "park gen-"@
    };
    let suffix = if corrective {
        " retry"@
    } else {
        Seq::empty()
    };
    lemma_numbered_plain(prefix, generation, suffix);
    assert(expected_ack_text(kind, generation, corrective, 0) =~= prefix + d + suffix);
    let ending = match (kind, corrective) {
        (PendingKind::Handoff, false) => Seq::empty(),
        (PendingKind::Handoff, true) => " retry"@,
        (_, false) => " park"@,
        (_, true) => " park retry"@,
    };
    lemma_numbered_plain("gen-"@, generation, ending);
    assert(expected_written_text(kind, generation, corrective)->0 =~= "gen-"@ + d + ending);
}

/// The acknowledgement that an instruction expects is read from a reply that carries
/// it, whatever stands around it, unless another one is begun before.
pub proof fn law_an_expected_acknowledgement_is_read(
    before: Seq<char>,
    kind: PendingKind,
    generation: u32,
    corrective: bool,
    episode: u32,
    after: Seq<char>,
)
    requires
        !contains(before, open_tag(ACK_TAG@)),
    ensures
        ({
            let value = expected_ack_text(kind, generation, corrective, episode);
            tag_value(before + marker(ACK_TAG@, value) + after, ACK_TAG@) == Some(value)
        }),
{
    reveal_strlit("handoff gen-");
    reveal_strlit("park gen-");
    reveal_strlit("winddown gen-");
    reveal_strlit("allclear gen-");
    reveal_strlit(" retry");
    reveal_strlit("-");
    reveal_strlit("samurai-ack");
    let value = expected_ack_text(kind, generation, corrective, episode);
    let prefix = match kind {
        PendingKind::Handoff => "handoff gen-"@,
        PendingKind::Park => "park gen-"@,
        PendingKind::SoftWinddown => "winddown gen-"@,
        PendingKind::WinddownAllClear => "allclear gen-"@,
    };
    let suffix = if kind.ack_only() {
        "-"@ + decimal(episode as nat)
    } else if corrective {
        " retry"@
    } else {
        Seq::empty()
    };
    lemma_decimal(episode as nat);
    assert(is_digit(decimal(episode as nat).last()));
    assert(no_bracket(suffix)) by {
        assert forall|i: int| 0 <= i < suffix.len() implies #[trigger] suffix[i] != '<' by {
            if kind.ack_only() && i > 0 {
                assert(is_digit(decimal(episode as nat)[i - 1]));
            }
        }
    }
    assert(value =~= prefix + decimal(generation as nat) + suffix);
    lemma_numbered_plain(prefix, generation, suffix);
    law_a_marker_is_read(before, ACK_TAG@, value, after);
}

/// The written marker that an instruction expects is read from a reply that carries
/// it, in the same way.
pub proof fn law_an_expected_written_marker_is_read(
    before: Seq<char>,
    kind: PendingKind,
    generation: u32,
    corrective: bool,
    after: Seq<char>,
)
    requires
        !kind.ack_only(),
        !contains(before, open_tag(WRITTEN_TAG@)),
    ensures
        ({
            let value = expected_written_text(kind, generation, corrective)->0;
            tag_value(before + marker(WRITTEN_TAG@, value) + after, WRITTEN_TAG@) == Some(value)
        }),
{
    reveal_strlit("gen-");
    reveal_strlit(" retry");
    reveal_strlit(" park");
    reveal_strlit(" park retry");
    reveal_strlit("samurai-handoff-written");
    let value = expected_written_text(kind, generation, corrective)->0;
    let suffix = match (kind, corrective) {
        (PendingKind::Handoff, false) => Seq::empty(),
        (PendingKind::Handoff, true) => " retry"@,
        (_, false) => " park"@,
        (_, true) => " park retry"@,
    };
    assert(value =~= "gen-"@ + decimal(generation as nat) + suffix);
    lemma_numbered_plain("gen-"@, generation, suffix);
    law_a_marker_is_read(before, WRITTEN_TAG@, value, after);
}

// ---------------------------------------------------------------------------
// Scanning an instruction
// ---------------------------------------------------------------------------

proof fn lemma_no_bracket_concat(a: Seq<char>, b: Seq<char>)
    requires
        no_bracket(a),
        no_bracket(b),
    ensures
        no_bracket(a + b),
{
    assert forall|i: int| 0 <= i < (a + b).len() implies #[trigger] (a + b)[i] != '<' by {
        if i < a.len() {
            assert((a + b)[i] == a[i]);
        } else {
            assert((a + b)[i] == b[i - a.len()]);
        }
    }
}

proof fn lemma_runs_no_bracket(s: Seq<char>, keep: spec_fn(char) -> bool)
    requires
        no_bracket(s),
    ensures
        forall|k: int| 0 <= k < runs(s, keep).len() ==> no_bracket(#[trigger] runs(s, keep)[k]),
    decreases s.len(),
{
    if s.len() > 0 {
        if !keep(s[0]) {
            let rest = s.drop_first();
            assert forall|i: int| 0 <= i < rest.len() implies #[trigger] rest[i] != '<' by {
                assert(rest[i] == s[i + 1]);
            }
            lemma_runs_no_bracket(rest, keep);
            assert(runs(s, keep) == runs(rest, keep));
        } else {
            lemma_run_len(s, keep);
            let n = run_len(s, keep) as int;
            let rest = s.skip(n);
            assert forall|i: int| 0 <= i < rest.len() implies #[trigger] rest[i] != '<' by {
                assert(rest[i] == s[i + n]);
            }
            lemma_runs_no_bracket(rest, keep);
            let all = runs(s, keep);
            assert forall|k: int| 0 <= k < all.len() implies no_bracket(#[trigger] all[k]) by {
                if k > 0 {
                    assert(all[k] == runs(rest, keep)[k - 1]);
                } else {
                    assert forall|i: int| 0 <= i < all[0].len() implies #[trigger] all[0][i]
                        != '<' by {
                        assert(all[0][i] == s[i]);
                    }
                }
            }
        }
    }
}

proof fn lemma_join_no_bracket(parts: Seq<Seq<char>>, sep: Seq<char>)
    requires
        no_bracket(sep),
        forall|k: int| 0 <= k < parts.len() ==> no_bracket(#[trigger] parts[k]),
    ensures
        no_bracket(join(parts, sep)),
    decreases parts.len(),
{
    if parts.len() == 1 {
        assert(no_bracket(parts[0]));
    } else if parts.len() > 1 {
        let init = parts.drop_last();
        assert forall|k: int| 0 <= k < init.len() implies no_bracket(#[trigger] init[k]) by {
            assert(init[k] == parts[k]);
        }
        lemma_join_no_bracket(init, sep);
        lemma_no_bracket_concat(join(init, sep), sep);
        assert(no_bracket(parts[parts.len() - 1]));
        lemma_no_bracket_concat(join(init, sep) + sep, parts.last());
    }
}

proof fn lemma_collapse_no_bracket(s: Seq<char>)
    requires
        no_bracket(s),
    ensures
        no_bracket(collapse(s)),
{
    reveal_strlit(" ");
    lemma_runs_no_bracket(s, non_space());
    lemma_join_no_bracket(runs(s, non_space()), " "@);
}

proof fn lemma_decimal_no_bracket(n: nat)
    ensures
        no_bracket(decimal(n)),
{
    lemma_decimal(n);
    assert forall|i: int| 0 <= i < decimal(n).len() implies #[trigger] decimal(n)[i] != '<' by {
        assert(is_digit(decimal(n)[i]));
    }
}

proof fn lemma_path_no_bracket(epic: Seq<char>, generation: u32)
    ensures
        no_bracket(handoff_file_relpath_text(epic, generation)),
{
    reveal_strlit(".maestro/handoffs/");
    reveal_strlit("-gen");
    reveal_strlit(".md");
    let slug = epic_slug_text(epic);
    lemma_epic_slug_is_slug(epic);
    assert forall|i: int| 0 <= i < slug.len() implies #[trigger] slug[i] != '<' by {
        assert(is_slug_char(slug[i]));
    }
    lemma_decimal_no_bracket(generation as nat);
    let a = ".maestro/handoffs/"@;
    lemma_no_bracket_concat(a, slug);
    lemma_no_bracket_concat(a + slug, "-gen"@);
    lemma_no_bracket_concat(a + slug + "-gen"@, decimal(generation as nat));
    lemma_no_bracket_concat(a + slug + "-gen"@ + decimal(generation as nat), ".md"@);
}

/// Without an angle bracket there is no tag.
proof fn lemma_no_tag(s: Seq<char>, tag: Seq<char>)
    requires
        no_bracket(s),
    ensures
        !contains(s, open_tag(tag)),
{
    reveal_strlit("<");
    if contains(s, open_tag(tag)) {
        let i = choose|i: int| occurs_at(s, open_tag(tag), i);
        assert(s.subrange(i, i + open_tag(tag).len())[0] == s[i]);
        assert(open_tag(tag)[0] == '<');
    }
}

/// A text with an acknowledgement marker and no other angle bracket has no written tag.
proof fn lemma_no_written_tag(lead: Seq<char>, ack: Seq<char>, mid: Seq<char>)
    requires
        no_bracket(lead),
        no_bracket(ack),
        no_bracket(mid),
    ensures
        !contains(lead + marker(ACK_TAG@, ack) + mid, open_tag(WRITTEN_TAG@)),
{
    lemma_tags();
    reveal_strlit("<samurai-ack>");
    reveal_strlit("</samurai-ack>");
    reveal_strlit("<samurai-handoff-written>");
    let open = open_tag(ACK_TAG@);
    let close = close_tag(ACK_TAG@);
    let m = marker(ACK_TAG@, ack);
    let s = lead + m + mid;
    let pat = open_tag(WRITTEN_TAG@);
    if contains(s, pat) {
        let i = choose|i: int| occurs_at(s, pat, i);
        let w = s.subrange(i, i + pat.len());
        assert(w[0] == s[i] && w[1] == s[i + 1] && w[9] == s[i + 9]);
        let j = i - lead.len();
        if j < 0 {
            assert(s[i] == lead[i]);
        } else if j < open.len() {
            assert(s[i] == open[j]);
            assert(j == 0);
            assert(s[i + 9] == open[9]);
        } else if j < open.len() + ack.len() {
            assert(s[i] == ack[j - open.len()]);
        } else if j < m.len() {
            let c = j - open.len() - ack.len();
            assert(s[i] == close[c]);
            assert(c == 0);
            assert(s[i + 1] == close[1]);
        } else {
            assert(s[i] == mid[j - m.len()]);
        }
    }
}

/// Both markers are read out of a text in which no other angle bracket opens before the
/// second.
proof fn lemma_both_read(
    lead: Seq<char>,
    ack: Seq<char>,
    mid: Seq<char>,
    written: Seq<char>,
    rest: Seq<char>,
)
    requires
        no_bracket(lead),
        no_bracket(mid),
        plain_value(ack),
        plain_value(written),
    ensures
        ({
            let text = lead + marker(ACK_TAG@, ack) + mid + marker(WRITTEN_TAG@, written) + rest;
            &&& tag_value(text, ACK_TAG@) == Some(ack)
            &&& tag_value(text, WRITTEN_TAG@) == Some(written)
        }),
{
    reveal_strlit("samurai-ack");
    reveal_strlit("samurai-handoff-written");
    let first = marker(ACK_TAG@, ack);
    let second = marker(WRITTEN_TAG@, written);
    let text = lead + first + mid + second + rest;
    lemma_no_tag(lead, ACK_TAG@);
    law_a_marker_is_read(lead, ACK_TAG@, ack, mid + second + rest);
    assert(lead + first + (mid + second + rest) =~= text);
    lemma_no_written_tag(lead, ack, mid);
    law_a_marker_is_read(lead + first + mid, WRITTEN_TAG@, written, rest);
}

/// The same of an instruction in its pieces, of which some end with an opening tag or begin
/// with a closing one.
proof fn lemma_pieces_read(
    lead: Seq<char>,
    front: Seq<char>,
    ack: Seq<char>,
    back: Seq<char>,
    path: Seq<char>,
    second_front: Seq<char>,
    written: Seq<char>,
    second_back: Seq<char>,
    rest: Seq<char>,
)
    requires
        no_bracket(lead),
        no_bracket(path),
        plain_value(ack),
        plain_value(written),
        ends_with(front, open_tag(ACK_TAG@)),
        starts_with(back, close_tag(ACK_TAG@)),
        ends_with(second_front, open_tag(WRITTEN_TAG@)),
        starts_with(second_back, close_tag(WRITTEN_TAG@)),
        no_bracket(front.take(front.len() - open_tag(ACK_TAG@).len())),
        no_bracket(back.skip(close_tag(ACK_TAG@).len() as int)),
        no_bracket(second_front.take(second_front.len() - open_tag(WRITTEN_TAG@).len())),
    ensures
        ({
            let text = lead + front + ack + back + path + second_front + written + second_back
                + rest;
            &&& tag_value(text, ACK_TAG@) == Some(ack)
            &&& tag_value(text, WRITTEN_TAG@) == Some(written)
        }),
{
    let f = front.take(front.len() - open_tag(ACK_TAG@).len());
    let b = back.skip(close_tag(ACK_TAG@).len() as int);
    let g = second_front.take(second_front.len() - open_tag(WRITTEN_TAG@).len());
    let c = second_back.skip(close_tag(WRITTEN_TAG@).len() as int);
    assert(front =~= f + open_tag(ACK_TAG@));
    assert(back =~= close_tag(ACK_TAG@) + b);
    assert(second_front =~= g + open_tag(WRITTEN_TAG@));
    assert(second_back =~= close_tag(WRITTEN_TAG@) + c);
    lemma_no_bracket_concat(lead, f);
    lemma_no_bracket_concat(b, path);
    lemma_no_bracket_concat(b + path, g);
    lemma_both_read(lead + f, ack, b + path + g, written, c + rest);
    let text = lead + front + ack + back + path + second_front + written + second_back + rest;
    let whole = (lead + f) + marker(ACK_TAG@, ack) + (b + path + g) + marker(
        WRITTEN_TAG@,
        written,
    ) + (c + rest);
    assert(text =~= whole);
}

/// The scanners read exactly the values that are asked for out of a handoff brief and out of
/// a park brief, in the first round, and in the corrective one where no angle bracket opens
/// in the failure that it names.
pub proof fn law_scanners_read_what_a_brief_asks_for(
    kind: PendingKind,
    epic: Seq<char>,
    generation: u32,
    corrective: bool,
    failure: Seq<char>,
)
    requires
        !kind.ack_only(),
        corrective ==> no_bracket(failure),
    ensures
        ({
            let text = brief_text(kind, epic, generation, corrective, failure, 0);
            &&& tag_value(text, ACK_TAG@) == Some(
                expected_ack_text(kind, generation, corrective, 0),
            )
            &&& tag_value(text, WRITTEN_TAG@) == expected_written_text(
                kind,
                generation,
                corrective,
            )
        }),
{
    lemma_tags();
    lemma_handoff_lines();
    lemma_park_lines();
    lemma_path_no_bracket(epic, generation);
    lemma_expected_plain(kind, generation, corrective);
    let ack = expected_ack_text(kind, generation, corrective, 0);
    let written = expected_written_text(kind, generation, corrective)->0;
    let path = handoff_file_relpath_text(epic, generation);
    let text = brief_text(kind, epic, generation, corrective, failure, 0);
    if corrective {
        lemma_collapse_no_bracket(failure);
        lemma_decimal_no_bracket(generation as nat);
    }
    match (kind, corrective) {
        (PendingKind::Handoff, true) => {
            let lead = lemma_lead(HANDOFF_FIX_1@, failure, HANDOFF_FIX_2@, generation,
                HANDOFF_FIX_3@, path);
            lemma_pieces_read(
                lead,
                HANDOFF_FIX_4@,
                ack,
                HANDOFF_FIX_5@,
                path,
                HANDOFF_FIX_6@,
                written,
                HANDOFF_FIX_7@,
                Seq::empty(),
            );
            assert(text + Seq::<char>::empty() =~= text);
        },
        (PendingKind::Handoff, false) => {
            lemma_pieces_read(
                Seq::empty(),
                HANDOFF_1@,
                ack,
                HANDOFF_2@,
                path,
                HANDOFF_3@,
                written,
                HANDOFF_4@,
                Seq::empty(),
            );
            assert(Seq::<char>::empty() + HANDOFF_1@ =~= HANDOFF_1@);
            assert(text + Seq::<char>::empty() =~= text);
        },
        (_, true) => {
            let lead = lemma_lead(PARK_FIX_1@, failure, PARK_FIX_2@, generation, PARK_FIX_3@, path);
            lemma_pieces_read(
                lead,
                PARK_FIX_4@,
                ack,
                PARK_FIX_5@,
                path,
                PARK_FIX_6@,
                written,
                PARK_FIX_7@,
                Seq::empty(),
            );
            assert(text + Seq::<char>::empty() =~= text);
        },
        (_, false) => {
            lemma_pieces_read(
                Seq::empty(),
                PARK_1@,
                ack,
                PARK_2@,
                path,
                PARK_3@,
                written,
                PARK_4@,
                scheduling_clause_text(),
            );
            assert(Seq::<char>::empty() + PARK_1@ =~= PARK_1@);
        },
    }
}

proof fn lemma_lead(
    first: Seq<char>,
    failure: Seq<char>,
    second: Seq<char>,
    generation: u32,
    third: Seq<char>,
    path: Seq<char>,
) -> (lead: Seq<char>)
    requires
        no_bracket(first),
        no_bracket(collapse(failure)),
        no_bracket(second),
        no_bracket(decimal(generation as nat)),
        no_bracket(third),
        no_bracket(path),
    ensures
        lead == first + collapse(failure) + second + decimal(generation as nat) + third + path,
        no_bracket(lead),
{
    let a = first + collapse(failure);
    let b = a + second;
    let c = b + decimal(generation as nat);
    let d = c + third;
    lemma_no_bracket_concat(first, collapse(failure));
    lemma_no_bracket_concat(a, second);
    lemma_no_bracket_concat(b, decimal(generation as nat));
    lemma_no_bracket_concat(c, third);
    lemma_no_bracket_concat(d, path);
    d + path
}

// ---------------------------------------------------------------------------
// The exchange
// ---------------------------------------------------------------------------

proof fn lemma_brief_single_line(
    kind: PendingKind,
    epic: Seq<char>,
    generation: u32,
    corrective: bool,
    failure: Seq<char>,
    episode: u32,
)
    ensures
        single_line(brief_text(kind, epic, generation, corrective, failure, episode)),
{
    lemma_values_single_line(generation, episode);
    lemma_winddown_briefs_single_line(soft_winddown_episode_ack_value_text(generation, episode));
    lemma_winddown_briefs_single_line(
        winddown_allclear_episode_ack_value_text(generation, episode),
    );
    lemma_handoff_instruction_single_line(epic, generation);
    lemma_park_instruction_single_line(epic, generation);
    lemma_handoff_corrective_instruction_single_line(epic, generation, failure);
    lemma_park_corrective_instruction_single_line(epic, generation, failure);
}

/// Whatever is typed into a session is one line without a submit key, and asks for the
/// markers that the session's instruction expects.
pub proof fn law_what_is_typed_asks_for_what_is_expected(
    m: InjectorModel,
    session_id: u32,
    state: Option<SupervisorState>,
)
    requires
        m.wf(),
        m.typed_on_idle(session_id, state) is Some,
    ensures
        ({
            let p = lookup(m.pending, session_id)->0;
            let text = m.typed_on_idle(session_id, state)->0;
            &&& single_line(text)
            &&& contains(
                text,
                marker(
                    ACK_TAG@,
                    expected_ack_text(p.kind, p.generation, p.corrective, p.episode),
                ),
            )
            &&& expected_written_text(p.kind, p.generation, p.corrective) matches Some(value)
                ==> contains(text, marker(WRITTEN_TAG@, value))
        }),
{
    let p = lookup(m.pending, session_id)->0;
    lemma_lookup(m.pending, session_id);
    assert(p.wf());
    lemma_brief_single_line(
        p.kind,
        p.epic,
        p.generation,
        p.corrective,
        p.failure_text(),
        p.episode,
    );
    law_a_brief_asks_for_its_markers(
        p.kind,
        p.epic,
        p.generation,
        p.corrective,
        p.failure_text(),
        p.episode,
    );
}

/// A session that does as it is told is understood: once its instruction is typed, a
/// reply with the marker that the instruction asks for acknowledges it, whatever
/// stands around the marker, unless another one is begun before.
pub proof fn law_an_exchange_completes(
    m: InjectorModel,
    session_id: u32,
    state: Option<SupervisorState>,
    before: Seq<char>,
    after: Seq<char>,
    now: u128,
)
    requires
        m.wf(),
        m.typed_on_idle(session_id, state) is Some,
        !contains(before, open_tag(ACK_TAG@)),
    ensures
        ({
            let p = lookup(m.pending, session_id)->0;
            let value = expected_ack_text(p.kind, p.generation, p.corrective, p.episode);
            m.after_idle(session_id, state, now).acked_by(
                session_id,
                before + marker(ACK_TAG@, value) + after,
            )
        }),
{
    let p = lookup(m.pending, session_id)->0;
    lemma_put(m.pending, session_id, p.typed(now));
    law_an_expected_acknowledgement_is_read(
        before,
        p.kind,
        p.generation,
        p.corrective,
        p.episode,
        after,
    );
}

/// A session that reports as it is told is understood: once its instruction is
/// acknowledged, a reply with the written marker starts the validation, in the same
/// way.
pub proof fn law_a_report_is_taken(p: PendingModel, before: Seq<char>, after: Seq<char>)
    requires
        p.wf(),
        p.acked,
        !p.validating,
        !contains(before, open_tag(WRITTEN_TAG@)),
    ensures
        p.written_by(
            before + marker(
                WRITTEN_TAG@,
                expected_written_text(p.kind, p.generation, p.corrective)->0,
            ) + after,
        ),
{
    law_an_expected_written_marker_is_read(before, p.kind, p.generation, p.corrective, after);
}

} // verus!
