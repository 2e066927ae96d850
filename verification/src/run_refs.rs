//! The GitHub work one run is scoped to.

use vstd::prelude::*;
use crate::decimal::all_digits;
use crate::text::{lemma_single_line_concat, owned, single_line, to_chars};
use crate::words::{
    collapse, collapse_whitespace, end_of_text, join, join_strings, lemma_collapse_single_line,
    lemma_join_single_line, lemma_run_len, lemma_trim_single_line, only, skip_char,
    skip_white_space, split, split_at_char, strip_start, trim, views,
};

verus! {

/// The text of one reference: white space collapsed, leading `#`s dropped, ends
/// trimmed. Nothing where nothing is left.
pub open spec fn normalized_ref(raw: Seq<char>) -> Option<Seq<char>> {
    let bare = trim(strip_start(collapse(raw), only('#')));
    if bare.len() == 0 {
        None
    } else {
        Some(bare)
    }
}

/// The references that carry something, each normalized, in the order given.
pub open spec fn normalized_refs(raw: Seq<Seq<char>>) -> Seq<Seq<char>>
    decreases raw.len(),
{
    if raw.len() == 0 {
        Seq::empty()
    } else {
        let init = normalized_refs(raw.drop_last());
        match normalized_ref(raw.last()) {
            Some(bare) => init.push(bare),
            None => init,
        }
    }
}

/// A reference as it is shown: a number gets its `#` back.
pub open spec fn display_ref_text(r: Seq<char>) -> Seq<char> {
    if all_digits(r) {
        "#"@ + r
    } else {
        r
    }
}

/// A list of references as it is shown: `#7, #9`.
pub open spec fn join_refs_text(refs: Seq<Seq<char>>) -> Seq<char> {
    join(refs.map_values(|r: Seq<char>| display_ref_text(r)), ", "@)
}

/// A noun and the references it counts, or nothing.
pub open spec fn phrase_text(one: Seq<char>, many: Seq<char>, refs: Seq<Seq<char>>) -> Seq<char> {
    if refs.len() == 0 {
        Seq::empty()
    } else if refs.len() == 1 {
        one + " "@ + join_refs_text(refs)
    } else {
        many + " "@ + join_refs_text(refs)
    }
}

/// The epics, counted and listed.
pub open spec fn epic_phrase_text(epics: Seq<Seq<char>>) -> Seq<char> {
    phrase_text("epic"@, "epics"@, epics)
}

/// The issues, counted and listed.
pub open spec fn issue_phrase_text(issues: Seq<Seq<char>>) -> Seq<char> {
    phrase_text("issue"@, "issues"@, issues)
}

/// The identity of a run over `epics` and `issues`.
pub open spec fn label_text(epics: Seq<Seq<char>>, issues: Seq<Seq<char>>) -> Seq<char> {
    if epics.len() > 0 && issues.len() > 0 {
        epic_phrase_text(epics) + " · "@ + issue_phrase_text(issues)
    } else if epics.len() > 0 {
        epic_phrase_text(epics)
    } else {
        issue_phrase_text(issues)
    }
}

/// The same set of references, spelled for prose.
pub open spec fn prose_text(epics: Seq<Seq<char>>, issues: Seq<Seq<char>>) -> Seq<char> {
    if epics.len() > 0 && issues.len() > 0 {
        "GitHub "@ + epic_phrase_text(epics) + " and "@ + issue_phrase_text(issues)
    } else if epics.len() > 0 {
        "GitHub "@ + epic_phrase_text(epics)
    } else if issues.len() > 0 {
        "GitHub "@ + issue_phrase_text(issues)
    } else {
        "GitHub epic"@
    }
}

/// Every reference is a non-empty single line.
pub open spec fn proper_refs(refs: Seq<Seq<char>>) -> bool {
    forall|k: int| 0 <= k < refs.len() ==> (#[trigger] refs[k]).len() > 0 && single_line(refs[k])
}

/// The GitHub work of one run: parent epics, whose child issues are found through
/// the epic itself, and stand-alone issues.
///
/// Every reference is in its bare form (`5`, `#5` and ` #5 ` are all `5`) and a
/// single line.
#[derive(Debug)]
pub struct RunRefs {
    epics: Vec<String>,
    issues: Vec<String>,
}

impl RunRefs {
    /// The epic references, bare, in the order given.
    pub closed spec fn epic_refs(&self) -> Seq<Seq<char>> {
        views(self.epics@)
    }

    /// The issue references, bare, in the order given.
    pub closed spec fn issue_refs(&self) -> Seq<Seq<char>> {
        views(self.issues@)
    }

    #[verifier::type_invariant]
    closed spec fn wf(&self) -> bool {
        proper_refs(views(self.epics@)) && proper_refs(views(self.issues@))
    }

    /// The references of a run, normalized; empty ones are dropped.
    pub fn new(epics: &[&str], issues: &[&str]) -> (refs: Self)
        ensures
            refs.epic_refs() == normalized_refs(epics@.map_values(|r: &str| r@)),
            refs.issue_refs() == normalized_refs(issues@.map_values(|r: &str| r@)),
    {
        proof {
            lemma_normalized_refs_proper(epics@.map_values(|r: &str| r@));
            lemma_normalized_refs_proper(issues@.map_values(|r: &str| r@));
        }
        RunRefs { epics: normalize_refs(epics), issues: normalize_refs(issues) }
    }

    /// Every reference is an epic, out of one comma-separated list.
    pub fn epics_only(epics: &str) -> (refs: Self)
        ensures
            refs.epic_refs() == normalized_refs(split(epics@, ',')),
            refs.issue_refs().len() == 0,
    {
        let parts = split_at_char(epics, ',');
        proof {
            lemma_normalized_refs_proper(split(epics@, ','));
        }
        RunRefs { epics: normalize_strings(&parts), issues: Vec::new() }
    }

    /// The epic references, bare (`5`), in the order given.
    pub fn epics(&self) -> (refs: &[String])
        ensures
            views(refs@) == self.epic_refs(),
            proper_refs(self.epic_refs()),
    {
        proof {
            use_type_invariant(self);
        }
        self.epics.as_slice()
    }

    /// The issue references, bare (`7`), in the order given.
    pub fn issues(&self) -> (refs: &[String])
        ensures
            views(refs@) == self.issue_refs(),
            proper_refs(self.issue_refs()),
    {
        proof {
            use_type_invariant(self);
        }
        self.issues.as_slice()
    }

    /// Whether there is no usable reference at all.
    pub fn is_empty(&self) -> (r: bool)
        ensures
            r == (self.epic_refs().len() == 0 && self.issue_refs().len() == 0),
    {
        self.epics.len() == 0 && self.issues.len() == 0
    }

    /// The identity of the run: `epic #5 · issues #7, #9`, `issue #7`,
    /// `epics #5, #12`; empty where there is nothing to name.
    pub fn label(&self) -> (text: String)
        ensures
            text@ == label_text(self.epic_refs(), self.issue_refs()),
            single_line(text@),
    {
        proof {
            use_type_invariant(self);
            lemma_label_single_line(self.epic_refs(), self.issue_refs());
        }
        let epics = self.epic_phrase();
        let issues = self.issue_phrase();
        if self.epics.len() > 0 && self.issues.len() > 0 {
            let mut text = epics;
            text.append(" · ");
            text.append(issues.as_str());
            text
        } else if self.epics.len() > 0 {
            epics
        } else {
            issues
        }
    }

    /// The same set spelled for prose: `GitHub epic #5 and issues #7, #9`.
    pub fn prose(&self) -> (text: String)
        ensures
            text@ == prose_text(self.epic_refs(), self.issue_refs()),
            single_line(text@),
    {
        proof {
            use_type_invariant(self);
            lemma_prose_single_line(self.epic_refs(), self.issue_refs());
        }
        if self.epics.len() == 0 && self.issues.len() == 0 {
            return owned("GitHub epic");
        }
        let mut text = owned("GitHub ");
        if self.epics.len() > 0 && self.issues.len() > 0 {
            text.append(self.epic_phrase().as_str());
            text.append(" and ");
            text.append(self.issue_phrase().as_str());
        } else if self.epics.len() > 0 {
            text.append(self.epic_phrase().as_str());
        } else {
            text.append(self.issue_phrase().as_str());
        }
        text
    }

    /// `epic #5`, `epics #5, #12` or nothing.
    fn epic_phrase(&self) -> (text: String)
        ensures
            text@ == epic_phrase_text(self.epic_refs()),
    {
        phrase("epic", "epics", &self.epics)
    }

    /// `issue #7`, `issues #7, #9` or nothing.
    fn issue_phrase(&self) -> (text: String)
        ensures
            text@ == issue_phrase_text(self.issue_refs()),
    {
        phrase("issue", "issues", &self.issues)
    }

    /// The issues as they are shown: `#7, #9`.
    pub(crate) fn issue_list(&self) -> (text: String)
        ensures
            text@ == join_refs_text(self.issue_refs()),
    {
        join_refs(&self.issues)
    }
}

/// A noun and the references it counts, or nothing.
fn phrase(one: &str, many: &str, refs: &Vec<String>) -> (text: String)
    ensures
        text@ == phrase_text(one@, many@, views(refs@)),
{
    if refs.len() == 0 {
        return String::new();
    }
    let mut text = if refs.len() == 1 {
        owned(one)
    } else {
        owned(many)
    };
    text.append(" ");
    text.append(join_refs(refs).as_str());
    text
}

/// Normalizes every reference and drops those that carry nothing.
fn normalize_refs(refs: &[&str]) -> (out: Vec<String>)
    ensures
        views(out@) == normalized_refs(refs@.map_values(|r: &str| r@)),
{
    let mut out: Vec<String> = Vec::new();
    let ghost raw = refs@.map_values(|r: &str| r@);
    let mut i: usize = 0;
    proof {
        assert(raw.take(0) =~= Seq::empty());
        assert(views(out@) =~= Seq::empty());
    }
    while i < refs.len()
        invariant
            i <= refs.len(),
            raw == refs@.map_values(|r: &str| r@),
            views(out@) == normalized_refs(raw.take(i as int)),
        decreases refs.len() - i,
    {
        proof {
            assert(raw.take(i + 1).drop_last() =~= raw.take(i as int));
            assert(raw.take(i + 1).last() == refs@[i as int]@);
        }
        if let Some(bare) = normalize_ref(refs[i]) {
            proof {
                assert(views(out@.push(bare)) =~= views(out@).push(bare@));
            }
            out.push(bare);
        }
        i = i + 1;
    }
    proof {
        assert(raw.take(i as int) =~= raw);
    }
    out
}

/// Normalizes every reference and drops those that carry nothing.
fn normalize_strings(refs: &Vec<String>) -> (out: Vec<String>)
    ensures
        views(out@) == normalized_refs(views(refs@)),
{
    let mut out: Vec<String> = Vec::new();
    let ghost raw = views(refs@);
    let mut i: usize = 0;
    proof {
        assert(raw.take(0) =~= Seq::empty());
        assert(views(out@) =~= Seq::empty());
    }
    while i < refs.len()
        invariant
            i <= refs.len(),
            raw == views(refs@),
            views(out@) == normalized_refs(raw.take(i as int)),
        decreases refs.len() - i,
    {
        proof {
            assert(raw.take(i + 1).drop_last() =~= raw.take(i as int));
            assert(raw.take(i + 1).last() == refs@[i as int]@);
        }
        if let Some(bare) = normalize_ref(refs[i].as_str()) {
            proof {
                assert(views(out@.push(bare)) =~= views(out@).push(bare@));
            }
            out.push(bare);
        }
        i = i + 1;
    }
    proof {
        assert(raw.take(i as int) =~= raw);
    }
    out
}

/// One reference with its white space collapsed and its leading `#` dropped:
/// `#5`, `5` and ` #5 ` all become `5`. `None` where nothing usable is left.
pub fn normalize_ref(raw: &str) -> (bare: Option<String>)
    ensures
        crate::handoff_file::opt_view(bare) == normalized_ref(raw@),
{
    let collapsed = collapse_whitespace(raw);
    let chars = to_chars(collapsed.as_str());
    let start: usize = skip_char(&chars, '#');
    let from: usize = skip_white_space(&chars, start);
    let to: usize = end_of_text(&chars, from);
    proof {
        assert(chars@.subrange(from as int, to as int) == trim(
            strip_start(collapse(raw@), only('#')),
        ));
    }
    if from == to {
        None
    } else {
        Some(crate::text::from_range(&chars, from, to))
    }
}

/// A reference as it is shown: a number gets its `#` back (`5` is `#5`); anything
/// else is left as typed.
pub fn display_ref(r: &str) -> (text: String)
    ensures
        text@ == display_ref_text(r@),
{
    let chars = to_chars(r);
    let mut i: usize = 0;
    while i < chars.len()
        invariant
            i <= chars.len(),
            chars@ == r@,
            forall|j: int| 0 <= j < i ==> #[trigger] crate::text::is_digit(chars@[j]),
        decreases chars.len() - i,
    {
        if !crate::text::digit(chars[i]) {
            return owned(r);
        }
        i = i + 1;
    }
    let mut text = owned("#");
    text.append(r);
    text
}

/// A list of references as it is shown: `#7, #9`.
fn join_refs(refs: &Vec<String>) -> (text: String)
    ensures
        text@ == join_refs_text(views(refs@)),
{
    let mut shown: Vec<String> = Vec::new();
    let mut i: usize = 0;
    while i < refs.len()
        invariant
            i <= refs.len(),
            shown.len() == i,
            forall|j: int| 0 <= j < i ==> (#[trigger] shown@[j])@ == display_ref_text(refs@[j]@),
        decreases refs.len() - i,
    {
        shown.push(display_ref(refs[i].as_str()));
        i = i + 1;
    }
    proof {
        assert(views(shown@) =~= views(refs@).map_values(|r: Seq<char>| display_ref_text(r)));
    }
    join_strings(&shown, ", ")
}

// ---------------------------------------------------------------------------
// Laws
// ---------------------------------------------------------------------------

/// A normalized reference is a non-empty single line, whatever was typed.
pub proof fn lemma_normalized_ref_proper(raw: Seq<char>)
    ensures
        normalized_ref(raw) matches Some(bare) ==> bare.len() > 0 && single_line(bare),
{
    lemma_collapse_single_line(raw);
    let s = collapse(raw);
    lemma_run_len(s, only('#'));
    let t = strip_start(s, only('#'));
    assert forall|i: int| 0 <= i < t.len() implies #[trigger] t[i] != '\n' && t[i] != '\r' by {
        assert(t[i] == s[i + crate::words::run_len(s, only('#'))]);
    }
    lemma_trim_single_line(t);
}

/// Every normalized reference is a non-empty single line.
pub proof fn lemma_normalized_refs_proper(raw: Seq<Seq<char>>)
    ensures
        proper_refs(normalized_refs(raw)),
    decreases raw.len(),
{
    if raw.len() > 0 {
        lemma_normalized_refs_proper(raw.drop_last());
        lemma_normalized_ref_proper(raw.last());
    }
}

/// A list of single-line references is shown on a single line.
pub proof fn lemma_join_refs_single_line(refs: Seq<Seq<char>>)
    requires
        proper_refs(refs),
    ensures
        single_line(join_refs_text(refs)),
{
    reveal_strlit("#");
    reveal_strlit(", ");
    let shown = refs.map_values(|r: Seq<char>| display_ref_text(r));
    assert forall|k: int| 0 <= k < shown.len() implies single_line(#[trigger] shown[k]) by {
        assert(single_line(refs[k]));
        lemma_single_line_concat("#"@, refs[k]);
    }
    lemma_join_single_line(shown, ", "@);
}

proof fn lemma_phrase_single_line(one: Seq<char>, many: Seq<char>, refs: Seq<Seq<char>>)
    requires
        single_line(one),
        single_line(many),
        proper_refs(refs),
    ensures
        single_line(phrase_text(one, many, refs)),
{
    broadcast use lemma_single_line_concat;

    reveal_strlit(" ");
    lemma_join_refs_single_line(refs);
}

/// The identity of a run is a single line.
pub proof fn lemma_label_single_line(epics: Seq<Seq<char>>, issues: Seq<Seq<char>>)
    requires
        proper_refs(epics),
        proper_refs(issues),
    ensures
        single_line(label_text(epics, issues)),
{
    broadcast use lemma_single_line_concat;

    reveal_strlit("epic");
    reveal_strlit("epics");
    reveal_strlit("issue");
    reveal_strlit("issues");
    reveal_strlit(" · ");
    lemma_phrase_single_line("epic"@, "epics"@, epics);
    lemma_phrase_single_line("issue"@, "issues"@, issues);
}

/// The prose spelling of a run is a single line.
pub proof fn lemma_prose_single_line(epics: Seq<Seq<char>>, issues: Seq<Seq<char>>)
    requires
        proper_refs(epics),
        proper_refs(issues),
    ensures
        single_line(prose_text(epics, issues)),
{
    broadcast use lemma_single_line_concat;

    reveal_strlit("epic");
    reveal_strlit("epics");
    reveal_strlit("issue");
    reveal_strlit("issues");
    reveal_strlit("GitHub ");
    reveal_strlit(" and ");
    reveal_strlit("GitHub epic");
    lemma_phrase_single_line("epic"@, "epics"@, epics);
    lemma_phrase_single_line("issue"@, "issues"@, issues);
}

} // verus!
