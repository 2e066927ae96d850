//! The ops journal: one line for each entry, and a marker line for each harvest.
//!
//! Entries are only ever appended, so a harvest marks what it consumed by a marker
//! line. Where an entry stands among the markers says how far it has come: behind
//! the last marker it is unconsumed, before it consumed, before two or more archived.
//! A line of no known shape is carried along and never touched.

use vstd::prelude::*;
use vstd::utf8::{decode_utf8, encode_utf8_decode_utf8, valid_utf8};
use crate::clock::{format_rfc3339, rfc3339_text, utc_now, Moment};
use crate::handoff_file::opt_view;
use crate::paths::{normalize_project, normalized_project};
use crate::rewrite::{lossy_chars, lossy_text};
use crate::text::{from_chars, owned, same, to_chars};
use crate::words::{chars_views, lines, split_lines, trim, views};

verus! {

/// The name of the journal file.
pub const JOURNAL_FILE: &'static str = "journal.jsonl";

/// The name of the archive file.
pub const ARCHIVE_FILE: &'static str = "archive.jsonl";

/// What an entry records.
#[derive(Debug, Clone, Copy, PartialEq, Eq, Structural)]
pub enum JournalCategory {
    /// Something that slowed the work down.
    Bottleneck,
    /// Something that went wrong.
    Error,
    /// An idea for the process.
    Improvement,
    /// A missing skill.
    Skill,
    /// A worry.
    Concern,
}

impl JournalCategory {
    /// The spelling in the journal file, which agents write by hand.
    pub open spec fn wire_text(self) -> Seq<char> {
        match self {
            JournalCategory::Bottleneck => "BOTTLENECK"@,
            JournalCategory::Error => "ERROR"@,
            JournalCategory::Improvement => "IMPROVEMENT"@,
            JournalCategory::Skill => "SKILL"@,
            JournalCategory::Concern => "CONCERN"@,
        }
    }

    /// The spelling in the journal file.
    pub fn wire_name(self) -> (name: &'static str)
        ensures
            name@ == self.wire_text(),
    {
        match self {
            JournalCategory::Bottleneck => "BOTTLENECK",
            JournalCategory::Error => "ERROR",
            JournalCategory::Improvement => "IMPROVEMENT",
            JournalCategory::Skill => "SKILL",
            JournalCategory::Concern => "CONCERN",
        }
    }

    /// The category of a spelling; nothing for any other text.
    pub fn from_wire(name: &str) -> (category: Option<Self>)
        ensures
            match category {
                Some(c) => c.wire_text() == name@,
                None => forall|c: JournalCategory| #[trigger] c.wire_text() != name@,
            },
    {
        if same(name, "BOTTLENECK") {
            Some(JournalCategory::Bottleneck)
        } else if same(name, "ERROR") {
            Some(JournalCategory::Error)
        } else if same(name, "IMPROVEMENT") {
            Some(JournalCategory::Improvement)
        } else if same(name, "SKILL") {
            Some(JournalCategory::Skill)
        } else if same(name, "CONCERN") {
            Some(JournalCategory::Concern)
        } else {
            None
        }
    }
}

/// An entry, with its texts as sequences.
pub ghost struct EntryModel {
    pub ts: Seq<char>,
    pub category: JournalCategory,
    pub text: Seq<char>,
    pub project: Option<Seq<char>>,
    pub agent: Option<Seq<char>>,
}

/// One entry of the journal.
#[derive(Debug, PartialEq)]
pub struct JournalEntry {
    /// When it was recorded.
    pub ts: String,
    /// What it records.
    pub category: JournalCategory,
    /// What it says.
    pub text: String,
    /// The project, where it is known.
    pub project: Option<String>,
    /// The agent that recorded it; none for a person.
    pub agent: Option<String>,
}

impl View for JournalEntry {
    type V = EntryModel;

    open spec fn view(&self) -> EntryModel {
        EntryModel {
            ts: self.ts@,
            category: self.category,
            text: self.text@,
            project: opt_view(self.project),
            agent: opt_view(self.agent),
        }
    }
}

/// The normal spelling of an optional project.
pub open spec fn opt_normalized(project: Option<Seq<char>>) -> Option<Seq<char>> {
    match project {
        Some(p) => Some(normalized_project(p)),
        None => None,
    }
}

/// A copy of an optional text.
pub(crate) fn copy_opt(text: &Option<String>) -> (r: Option<String>)
    ensures
        opt_view(r) == opt_view(*text),
{
    match text {
        Some(t) => Some(t.clone()),
        None => None,
    }
}

impl JournalEntry {
    /// An entry recorded at a moment.
    pub fn at(
        created: Moment,
        category: JournalCategory,
        text: String,
        project: Option<String>,
        agent: Option<String>,
    ) -> (entry: Self)
        requires
            created.valid(),
        ensures
            entry@ == (EntryModel {
                ts: rfc3339_text(created.secs, created.nanos),
                category,
                text: text@,
                project: opt_normalized(opt_view(project)),
                agent: opt_view(agent),
            }),
    {
        let project = match project {
            Some(p) => Some(normalize_project(p.as_str())),
            None => None,
        };
        JournalEntry { ts: format_rfc3339(created), category, text, project, agent }
    }

    /// An entry recorded now.
    pub fn now(
        category: JournalCategory,
        text: String,
        project: Option<String>,
        agent: Option<String>,
    ) -> (entry: Self)
        ensures
            entry@ == (EntryModel {
                ts: entry@.ts,
                category,
                text: text@,
                project: opt_normalized(opt_view(project)),
                agent: opt_view(agent),
            }),
            exists|created: Moment|
                #![trigger rfc3339_text(created.secs, created.nanos)]
                created.valid() && entry@.ts == rfc3339_text(created.secs, created.nanos),
    {
        let created = utc_now();
        let entry = Self::at(created, category, text, project, agent);
        proof {
            assert(entry@.ts == rfc3339_text(created.secs, created.nanos));
        }
        entry
    }

    /// A copy.
    pub fn copy(&self) -> (entry: Self)
        ensures
            entry@ == self@,
    {
        JournalEntry {
            ts: self.ts.clone(),
            category: self.category,
            text: self.text.clone(),
            project: copy_opt(&self.project),
            agent: copy_opt(&self.agent),
        }
    }

    /// The entry with its project in the normal spelling, as it is appended.
    pub fn normalized(self) -> (entry: Self)
        ensures
            entry@ == (EntryModel { project: opt_normalized(self@.project), ..self@ }),
    {
        let project = match &self.project {
            Some(p) => Some(normalize_project(p.as_str())),
            None => None,
        };
        JournalEntry { project, ..self }
    }
}

/// What a marker line marks.
#[derive(Debug, Clone, Copy, PartialEq, Eq, Structural)]
pub enum MarkerKind {
    /// A harvest.
    Harvest,
}

/// A marker line: what stands before it was consumed by the named report.
#[derive(Debug, PartialEq)]
pub struct HarvestMarker {
    /// When the harvest was committed.
    pub ts: String,
    /// What it marks.
    pub kind: MarkerKind,
    /// The date of the report.
    pub report: String,
}

impl MarkerKind {
    /// The spelling in the journal file.
    pub fn wire_name(self) -> (name: &'static str)
        ensures
            name@ == "HARVEST"@,
    {
        match self {
            MarkerKind::Harvest => "HARVEST",
        }
    }
}

impl HarvestMarker {
    /// A marker made at a moment.
    pub fn at(created: Moment, report: String) -> (marker: Self)
        requires
            created.valid(),
        ensures
            marker.ts@ == rfc3339_text(created.secs, created.nanos),
            marker.kind is Harvest,
            marker.report == report,
    {
        HarvestMarker { ts: format_rfc3339(created), kind: MarkerKind::Harvest, report }
    }

    /// A marker made now.
    pub fn now(report: String) -> (marker: Self)
        ensures
            marker.kind is Harvest,
            marker.report == report,
            exists|created: Moment|
                #![trigger rfc3339_text(created.secs, created.nanos)]
                created.valid() && marker.ts@ == rfc3339_text(created.secs, created.nanos),
    {
        let created = utc_now();
        let marker = Self::at(created, report);
        proof {
            assert(marker.ts@ == rfc3339_text(created.secs, created.nanos));
        }
        marker
    }
}

// ---------------------------------------------------------------------------
// Lines
// ---------------------------------------------------------------------------

/// What a line is, with its texts as sequences.
pub ghost enum LineModel {
    /// An entry and its exact text.
    Entry(EntryModel, Seq<char>),
    /// A marker's exact text, and its text when it is written anew.
    Marker(Seq<char>, Seq<char>),
    /// A line of no known shape.
    Opaque(Seq<char>),
}

impl LineModel {
    /// The exact text of the line.
    pub open spec fn raw(self) -> Seq<char> {
        match self {
            LineModel::Entry(_, raw) => raw,
            LineModel::Marker(raw, _) => raw,
            LineModel::Opaque(raw) => raw,
        }
    }
}

/// One line of the journal file, with its exact text.
#[derive(Debug)]
pub enum JournalLine {
    /// An entry.
    Entry {
        /// What was read.
        entry: JournalEntry,
        /// The line.
        raw: String,
    },
    /// A marker.
    Marker {
        /// What was read.
        marker: HarvestMarker,
        /// The line.
        raw: String,
        /// The marker written anew.
        rewritten: String,
    },
    /// A line of no known shape.
    Opaque {
        /// The line.
        raw: String,
    },
}

impl View for JournalLine {
    type V = LineModel;

    open spec fn view(&self) -> LineModel {
        match self {
            JournalLine::Entry { entry, raw } => LineModel::Entry(entry@, raw@),
            JournalLine::Marker { raw, rewritten, .. } => LineModel::Marker(raw@, rewritten@),
            JournalLine::Opaque { raw } => LineModel::Opaque(raw@),
        }
    }
}

impl JournalLine {
    /// The exact text of the line.
    pub fn raw(&self) -> (raw: &str)
        ensures
            raw@ == self@.raw(),
    {
        match self {
            JournalLine::Entry { raw, .. } => raw.as_str(),
            JournalLine::Marker { raw, .. } => raw.as_str(),
            JournalLine::Opaque { raw } => raw.as_str(),
        }
    }

    /// Whether the line is a marker.
    pub fn is_marker(&self) -> (r: bool)
        ensures
            r == (self@ is Marker),
    {
        matches!(self, JournalLine::Marker { .. })
    }
}

/// Whether a text is JSON, and if so whether it is an object with a key.
pub uninterp spec fn json_key(text: Seq<char>, key: Seq<char>) -> Option<bool>;

/// `serde_json::from_str` to a `serde_json::Value`, then `Value::get`: nothing where the
/// text is not JSON, else whether it is an object that has the key. The answer is a
/// function of the text and the key.
#[verifier::external_body]
fn json_has_key(text: &str, key: &str) -> (found: Option<bool>)
    ensures
        found == json_key(text@, key@),
{
    match serde_json::from_str::<serde_json::Value>(text) {
        Ok(value) => Some(value.get(key).is_some()),
        Err(_) => None,
    }
}

/// What a line is. One with a `kind` is a marker, one without is an entry, if it has the
/// shape of one; everything else is of no known shape. An entry's project is repaired
/// in what was read; the text of the line stays exact.
pub open spec fn line_model(
    raw: Seq<char>,
    has_kind: Option<bool>,
    marker: Option<(HarvestMarker, String)>,
    entry: Option<JournalEntry>,
) -> LineModel {
    match (has_kind, marker, entry) {
        (Some(true), Some((_, rewritten)), _) => LineModel::Marker(raw, rewritten@),
        (Some(false), _, Some(e)) => LineModel::Entry(
            EntryModel { project: opt_normalized(e@.project), ..e@ },
            raw,
        ),
        _ => LineModel::Opaque(raw),
    }
}

/// The line that was read, by whether it has a `kind`. `marker` is the marker that its
/// text spells, if any, with the marker written anew; `entry` the entry.
pub fn line_of(
    raw: String,
    has_kind: Option<bool>,
    marker: Option<(HarvestMarker, String)>,
    entry: Option<JournalEntry>,
) -> (line: JournalLine)
    ensures
        line@ == line_model(raw@, has_kind, marker, entry),
{
    match has_kind {
        Some(true) => match marker {
            Some((marker, rewritten)) => JournalLine::Marker { marker, raw, rewritten },
            None => JournalLine::Opaque { raw },
        },
        Some(false) => match entry {
            Some(entry) => JournalLine::Entry { entry: entry.normalized(), raw },
            None => JournalLine::Opaque { raw },
        },
        None => JournalLine::Opaque { raw },
    }
}

/// The line that was read. `marker` is the marker that its text spells, if any, with the
/// marker written anew; `entry` the entry.
pub fn parse_line(
    raw: String,
    marker: Option<(HarvestMarker, String)>,
    entry: Option<JournalEntry>,
) -> (line: JournalLine)
    ensures
        line@ == line_model(raw@, json_key(raw@, "kind"@), marker, entry),
{
    let has_kind = json_has_key(raw.as_str(), "kind");
    line_of(raw, has_kind, marker, entry)
}

/// The lines that are not blank.
pub open spec fn not_blank() -> spec_fn(Seq<char>) -> bool {
    |line: Seq<char>| trim(line).len() > 0
}

/// The lines of a journal file that are not blank, in order.
pub fn journal_lines(content: &str) -> (out: Vec<String>)
    ensures
        views(out@) == lines(content@).filter(not_blank()),
{
    let chars = to_chars(content);
    let all = split_lines(&chars);
    let ghost texts = chars_views(all@);
    let mut out: Vec<String> = Vec::new();
    let mut i: usize = 0;
    proof {
        reveal(Seq::filter);
        assert(texts.take(0) =~= Seq::empty());
        assert(views(out@) =~= texts.take(0).filter(not_blank()));
    }
    while i < all.len()
        invariant
            i <= all.len(),
            texts == chars_views(all@),
            views(out@) == texts.take(i as int).filter(not_blank()),
        decreases all.len() - i,
    {
        proof {
            reveal(Seq::filter);
            assert(texts.take(i + 1).drop_last() =~= texts.take(i as int));
            assert(texts.take(i + 1).last() == all@[i as int]@);
        }
        let trimmed = crate::words::trim_chars(&all[i]);
        let blank: bool = trimmed.as_str().is_empty();
        if !blank {
            let line = from_chars(all[i].as_slice());
            proof {
                assert(views(out@.push(line)) =~= views(out@).push(line@));
            }
            out.push(line);
        }
        i = i + 1;
    }
    proof {
        assert(texts.take(i as int) =~= texts);
    }
    out
}

/// `String::from_utf8`: the text that the bytes encode, or nothing where they are not
/// valid UTF-8.
#[verifier::external_body]
fn strict_text(bytes: Vec<u8>) -> (text: Option<String>)
    ensures
        match text {
            Some(t) => valid_utf8(bytes@) && t@ == decode_utf8(bytes@),
            None => !valid_utf8(bytes@),
        },
{
    String::from_utf8(bytes).ok()
}

/// The text ends where a line ends.
pub open spec fn at_line_start(content: Seq<char>) -> bool {
    content.len() > 0 ==> content.last() == '\n'
}

/// What is appended to a file for a line: a line of its own, also where the last line of
/// the file has no line feed yet.
pub open spec fn appended_text(line: Seq<char>, open_end: bool) -> Seq<char> {
    if open_end {
        seq!['\n'] + line.push('\n')
    } else {
        line.push('\n')
    }
}

/// The text to append to a file for a line.
pub fn appended_line(line: &str, open_end: bool) -> (text: String)
    ensures
        text@ == appended_text(line@, open_end),
{
    let mut text = String::new();
    if open_end {
        text.push('\n');
    }
    push_line(&mut text, line);
    proof {
        assert(text@ =~= appended_text(line@, open_end));
    }
    text
}

/// A journal file as it was read.
#[derive(Debug)]
pub struct JournalText {
    /// The lines that are not blank, in order.
    pub lines: Vec<String>,
    /// The last line of the file has no line feed.
    pub open_end: bool,
}

impl JournalText {
    /// It is what was read out of `content`.
    pub open spec fn is_read_from(&self, content: Seq<char>) -> bool {
        &&& views(self.lines@) == lines(content).filter(not_blank())
        &&& self.open_end == !at_line_start(content)
    }
}

/// Reads the text of a journal file.
pub fn read_journal(content: &str) -> (read: JournalText)
    ensures
        read.is_read_from(content@),
{
    let chars = to_chars(content);
    let open_end: bool = chars.len() > 0 && chars[chars.len() - 1] != '\n';
    JournalText { lines: journal_lines(content), open_end }
}

/// Reads the bytes of a journal file, for a rewrite that must not touch what it cannot
/// read: nothing where they are not valid UTF-8.
pub fn read_strictly(bytes: Vec<u8>) -> (read: Option<JournalText>)
    ensures
        match read {
            Some(r) => valid_utf8(bytes@) && r.is_read_from(decode_utf8(bytes@)),
            None => !valid_utf8(bytes@),
        },
{
    match strict_text(bytes) {
        Some(text) => Some(read_journal(text.as_str())),
        None => None,
    }
}

/// Reads the bytes of a journal file, with what is not valid UTF-8 replaced.
pub fn read_leniently(bytes: &[u8]) -> (read: JournalText)
    ensures
        read.is_read_from(lossy_chars(bytes@)),
        valid_utf8(bytes@) ==> read.is_read_from(decode_utf8(bytes@)),
{
    let text = lossy_text(bytes);
    proof {
        encode_utf8_decode_utf8(text@);
    }
    read_journal(text.as_str())
}

/// The models of the lines.
pub open spec fn models(all: Seq<JournalLine>) -> Seq<LineModel> {
    all.map_values(|l: JournalLine| l@)
}

/// The lines, each with its line feed.
pub open spec fn text_of(all: Seq<Seq<char>>) -> Seq<char>
    decreases all.len(),
{
    if all.len() == 0 {
        Seq::empty()
    } else {
        text_of(all.drop_last()) + all.last().push('\n')
    }
}

/// The exact texts of the lines.
pub open spec fn raws(all: Seq<LineModel>) -> Seq<Seq<char>> {
    all.map_values(|l: LineModel| l.raw())
}

/// Appends a line and its line feed.
pub(crate) fn push_line(out: &mut String, line: &str)
    ensures
        final(out)@ == old(out)@ + line@.push('\n'),
{
    out.append(line);
    out.push('\n');
    proof {
        assert(out@ =~= old(out)@ + line@.push('\n'));
    }
}

/// The text of the lines, each with its line feed.
pub fn lines_text(all: &Vec<String>) -> (text: String)
    ensures
        text@ == text_of(views(all@)),
{
    let ghost texts = views(all@);
    let mut text = String::new();
    let mut i: usize = 0;
    proof {
        assert(texts.take(0) =~= Seq::empty());
    }
    while i < all.len()
        invariant
            i <= all.len(),
            texts == views(all@),
            text@ == text_of(texts.take(i as int)),
        decreases all.len() - i,
    {
        proof {
            assert(texts.take(i + 1).drop_last() =~= texts.take(i as int));
            assert(texts.take(i + 1).last() == all@[i as int]@);
        }
        push_line(&mut text, all[i].as_str());
        i = i + 1;
    }
    proof {
        assert(texts.take(i as int) =~= texts);
    }
    text
}

// ---------------------------------------------------------------------------
// Status
// ---------------------------------------------------------------------------

/// How far an entry has come.
#[derive(Debug, Clone, Copy, PartialEq, Eq, Structural)]
pub enum JournalEntryStatus {
    /// No harvest consumed it.
    Unconsumed,
    /// The last harvest consumed it.
    Consumed,
    /// An earlier harvest consumed it.
    Archived,
}

/// How many markers there are.
pub open spec fn marker_count(all: Seq<LineModel>) -> nat
    decreases all.len(),
{
    if all.len() == 0 {
        0
    } else {
        marker_count(all.drop_last()) + if all.last() is Marker {
            1nat
        } else {
            0nat
        }
    }
}

/// The status of an entry by how many markers stand behind it.
pub open spec fn status_behind(markers: nat) -> JournalEntryStatus {
    if markers == 0 {
        JournalEntryStatus::Unconsumed
    } else if markers == 1 {
        JournalEntryStatus::Consumed
    } else {
        JournalEntryStatus::Archived
    }
}

/// The status of the entry at `i`.
pub open spec fn status_at(all: Seq<LineModel>, i: int) -> JournalEntryStatus {
    status_behind(marker_count(all.skip(i + 1)))
}

/// The index of the last marker.
pub open spec fn last_marker(all: Seq<LineModel>) -> Option<int>
    decreases all.len(),
{
    if all.len() == 0 {
        None
    } else if all.last() is Marker {
        Some(all.len() - 1)
    } else {
        last_marker(all.drop_last())
    }
}

/// The index of the last marker but one.
pub open spec fn previous_marker(all: Seq<LineModel>) -> Option<int> {
    match last_marker(all) {
        Some(last) => last_marker(all.take(last)),
        None => None,
    }
}

/// What the last marker is: a marker with none behind it.
pub proof fn lemma_last_marker(all: Seq<LineModel>)
    ensures
        match last_marker(all) {
            Some(last) => 0 <= last < all.len() && all[last] is Marker && forall|j: int|
                last < j < all.len() ==> !((#[trigger] all[j]) is Marker),
            None => forall|j: int| 0 <= j < all.len() ==> !((#[trigger] all[j]) is Marker),
        },
    decreases all.len(),
{
    if all.len() > 0 && !(all.last() is Marker) {
        let init = all.drop_last();
        lemma_last_marker(init);
        assert forall|j: int| 0 <= j < init.len() implies #[trigger] all[j] == init[j] by {}
        assert(all[all.len() - 1] == all.last());
    }
}

/// Markers of two stretches add up.
pub proof fn lemma_marker_count_concat(a: Seq<LineModel>, b: Seq<LineModel>)
    ensures
        marker_count(a + b) == marker_count(a) + marker_count(b),
    decreases b.len(),
{
    if b.len() == 0 {
        assert(a + b =~= a);
    } else {
        lemma_marker_count_concat(a, b.drop_last());
        assert((a + b).drop_last() =~= a + b.drop_last());
        assert((a + b).last() == b.last());
    }
}

/// A stretch without markers has none.
pub proof fn lemma_no_markers(a: Seq<LineModel>)
    requires
        forall|j: int| 0 <= j < a.len() ==> !((#[trigger] a[j]) is Marker),
    ensures
        marker_count(a) == 0,
    decreases a.len(),
{
    if a.len() > 0 {
        assert forall|j: int| 0 <= j < a.drop_last().len() implies !((
        #[trigger] a.drop_last()[j]) is Marker) by {
            assert(a.drop_last()[j] == a[j]);
        }
        lemma_no_markers(a.drop_last());
        assert(a.last() == a[a.len() - 1]);
    }
}

/// The number of markers behind an entry, from where the last two are.
pub(crate) proof fn lemma_markers_behind(all: Seq<LineModel>, i: int)
    requires
        0 <= i < all.len(),
        !(all[i] is Marker),
    ensures
        status_at(all, i) == (match (last_marker(all), previous_marker(all)) {
            (None, _) => JournalEntryStatus::Unconsumed,
            (Some(last), _) if i > last => JournalEntryStatus::Unconsumed,
            (Some(_), Some(prev)) if i < prev => JournalEntryStatus::Archived,
            _ => JournalEntryStatus::Consumed,
        }),
{
    lemma_last_marker(all);
    let behind = all.skip(i + 1);
    match last_marker(all) {
        None => {
            assert forall|j: int| 0 <= j < behind.len() implies !((#[trigger] behind[j])
                is Marker) by {
                assert(behind[j] == all[i + 1 + j]);
            }
            lemma_no_markers(behind);
        },
        Some(last) => {
            let head = all.take(last);
            lemma_last_marker(head);
            if i > last {
                assert forall|j: int| 0 <= j < behind.len() implies !((#[trigger] behind[j])
                    is Marker) by {
                    assert(behind[j] == all[i + 1 + j]);
                }
                lemma_no_markers(behind);
            } else {
                let tail = all.skip(last + 1);
                assert forall|j: int| 0 <= j < tail.len() implies !((#[trigger] tail[j])
                    is Marker) by {
                    assert(tail[j] == all[last + 1 + j]);
                }
                lemma_no_markers(tail);
                let middle = all.subrange(i + 1, last);
                let upto = middle.push(all[last]);
                assert(behind =~= upto + tail);
                lemma_marker_count_concat(upto, tail);
                assert(upto.drop_last() =~= middle);
                assert(marker_count(upto) == marker_count(middle) + 1);
                match last_marker(head) {
                    None => {
                        assert forall|j: int| 0 <= j < middle.len() implies !((
                        #[trigger] middle[j]) is Marker) by {
                            assert(middle[j] == all[i + 1 + j]);
                            assert(head[i + 1 + j] == all[i + 1 + j]);
                        }
                        lemma_no_markers(middle);
                    },
                    Some(prev) => {
                        assert(head[prev] == all[prev]);
                        if i < prev {
                            let a = all.subrange(i + 1, prev);
                            let b = all.subrange(prev + 1, last);
                            assert(middle =~= a.push(all[prev]) + b);
                            lemma_marker_count_concat(a.push(all[prev]), b);
                            assert(a.push(all[prev]).drop_last() =~= a);
                        } else {
                            assert forall|j: int| 0 <= j < middle.len() implies !((
                            #[trigger] middle[j]) is Marker) by {
                                assert(middle[j] == all[i + 1 + j]);
                                assert(head[i + 1 + j] == all[i + 1 + j]);
                            }
                            lemma_no_markers(middle);
                        }
                    },
                }
            }
        },
    }
}

/// The status of the entry at `idx`, by where the last two markers are.
pub fn entry_status(idx: usize, last: Option<usize>, prev: Option<usize>) -> (status:
    JournalEntryStatus)
    ensures
        status == (match (last, prev) {
            (None, _) => JournalEntryStatus::Unconsumed,
            (Some(l), _) if idx > l => JournalEntryStatus::Unconsumed,
            (Some(_), Some(p)) if idx < p => JournalEntryStatus::Archived,
            _ => JournalEntryStatus::Consumed,
        }),
{
    match last {
        None => JournalEntryStatus::Unconsumed,
        Some(l) => if idx > l {
            JournalEntryStatus::Unconsumed
        } else {
            match prev {
                Some(p) => if idx < p {
                    JournalEntryStatus::Archived
                } else {
                    JournalEntryStatus::Consumed
                },
                None => JournalEntryStatus::Consumed,
            }
        },
    }
}

/// Whether the entry at `idx` stands behind the last marker.
pub fn is_unconsumed(idx: usize, last_marker: Option<usize>) -> (r: bool)
    ensures
        r == (last_marker matches Some(last) ==> idx > last),
{
    match last_marker {
        None => true,
        Some(last) => idx > last,
    }
}

/// The index of the last marker before `end`.
pub(crate) fn marker_before(all: &Vec<JournalLine>, end: usize) -> (r: Option<usize>)
    requires
        end <= all.len(),
    ensures
        match r {
            Some(i) => last_marker(models(all@).take(end as int)) == Some(i as int) && i < end,
            None => last_marker(models(all@).take(end as int)) is None,
        },
{
    let ghost texts = models(all@);
    let mut i: usize = end;
    while i > 0
        invariant
            i <= end <= all.len(),
            texts == models(all@),
            last_marker(texts.take(i as int)) == last_marker(texts.take(end as int)),
        decreases i,
    {
        proof {
            assert(texts.take(i as int).drop_last() =~= texts.take(i - 1));
            assert(texts.take(i as int).last() == texts[i - 1]);
            assert(texts[i - 1] == all@[i - 1]@);
        }
        if all[i - 1].is_marker() {
            return Some(i - 1);
        }
        i = i - 1;
    }
    None
}

/// Where the last marker and the one before it are.
pub fn marker_positions(all: &Vec<JournalLine>) -> (positions: (Option<usize>, Option<usize>))
    ensures
        match positions.0 {
            Some(last) => last_marker(models(all@)) == Some(last as int),
            None => last_marker(models(all@)) is None,
        },
        match positions.1 {
            Some(prev) => previous_marker(models(all@)) == Some(prev as int),
            None => previous_marker(models(all@)) is None,
        },
{
    proof {
        assert(models(all@).take(all.len() as int) =~= models(all@));
    }
    match marker_before(all, all.len()) {
        None => (None, None),
        Some(last) => (Some(last), marker_before(all, last)),
    }
}

// ---------------------------------------------------------------------------
// Lists and deletes
// ---------------------------------------------------------------------------

/// A listed entry: what it says, its status, and its exact text.
pub ghost struct RowModel {
    pub entry: EntryModel,
    pub status: JournalEntryStatus,
    pub raw: Seq<char>,
}

/// The entries of the first `n` lines, each with its status among all the lines.
pub open spec fn rows_upto(all: Seq<LineModel>, n: int) -> Seq<RowModel>
    decreases n,
{
    if n <= 0 {
        Seq::empty()
    } else {
        match all[n - 1] {
            LineModel::Entry(entry, raw) => rows_upto(all, n - 1).push(
                RowModel { entry, status: status_at(all, n - 1), raw },
            ),
            _ => rows_upto(all, n - 1),
        }
    }
}

/// The entries of the journal, each with its status.
pub open spec fn rows(all: Seq<LineModel>) -> Seq<RowModel> {
    rows_upto(all, all.len() as int)
}

/// The lines of no known shape.
pub open spec fn opaque() -> spec_fn(LineModel) -> bool {
    |l: LineModel| l is Opaque
}

/// A listed entry.
#[derive(Debug)]
pub struct JournalEntryWithStatus {
    /// What it says.
    pub entry: JournalEntry,
    /// How far it has come.
    pub status: JournalEntryStatus,
    /// Its exact text, by which it is deleted.
    pub raw: String,
}

impl View for JournalEntryWithStatus {
    type V = RowModel;

    open spec fn view(&self) -> RowModel {
        RowModel { entry: self.entry@, status: self.status, raw: self.raw@ }
    }
}

/// The models of the listed entries.
pub open spec fn row_views(listed: Seq<JournalEntryWithStatus>) -> Seq<RowModel> {
    listed.map_values(|r: JournalEntryWithStatus| r@)
}

/// The listed journal.
#[derive(Debug)]
pub struct JournalListResult {
    /// The entries, the newest last.
    pub entries: Vec<JournalEntryWithStatus>,
    /// The size of the file.
    pub file_size_bytes: u64,
    /// How many lines are of no known shape.
    pub opaque_line_count: usize,
}

/// The entries that no harvest consumed.
pub open spec fn is_fresh() -> spec_fn(RowModel) -> bool {
    |r: RowModel| r.status is Unconsumed
}

/// The line is an entry with this exact text.
pub open spec fn is_entry_with(raw: Seq<char>) -> spec_fn(LineModel) -> bool {
    |l: LineModel| l is Entry && l.raw() == raw
}

/// The line is no entry with this exact text.
pub open spec fn is_no_entry_with(raw: Seq<char>) -> spec_fn(LineModel) -> bool {
    |l: LineModel| !(l is Entry && l.raw() == raw)
}

/// The lines of a journal file.
#[derive(Debug)]
pub struct JournalStore {
    lines: Vec<JournalLine>,
    open_end: bool,
}

impl View for JournalStore {
    type V = Seq<LineModel>;

    closed spec fn view(&self) -> Seq<LineModel> {
        models(self.lines@)
    }
}

impl JournalStore {
    /// The last line of the file has no line feed.
    pub closed spec fn open_end(&self) -> bool {
        self.open_end
    }

    /// The journal with these lines, in file order. `open_end` says that the last line
    /// of the file has no line feed.
    pub fn new(lines: Vec<JournalLine>, open_end: bool) -> (store: Self)
        ensures
            store@ == models(lines@),
            store.open_end() == open_end,
    {
        JournalStore { lines, open_end }
    }

    /// Whether the last line of the file has no line feed.
    pub fn has_open_end(&self) -> (r: bool)
        ensures
            r == self.open_end(),
    {
        self.open_end
    }

    /// The lines of the journal.
    pub(crate) fn all_lines(&self) -> (lines: &Vec<JournalLine>)
        ensures
            models(lines@) == self@,
    {
        &self.lines
    }

    /// The text of the journal: every line, exactly, with its line feed.
    pub fn text(&self) -> (text: String)
        ensures
            text@ == text_of(raws(self@)),
    {
        let ghost all = raws(self@);
        let mut text = String::new();
        let mut i: usize = 0;
        proof {
            assert(all.take(0) =~= Seq::empty());
        }
        while i < self.lines.len()
            invariant
                i <= self.lines.len(),
                all == raws(self@),
                self@ == models(self.lines@),
                text@ == text_of(all.take(i as int)),
            decreases self.lines.len() - i,
        {
            proof {
                assert(all.take(i + 1).drop_last() =~= all.take(i as int));
                assert(all.take(i + 1).last() == self.lines@[i as int]@.raw());
            }
            push_line(&mut text, self.lines[i].raw());
            i = i + 1;
        }
        proof {
            assert(all.take(i as int) =~= all);
        }
        text
    }

    /// The entries in file order, each with its status, and what else is known of the
    /// file.
    pub fn list(&self, file_size_bytes: u64) -> (result: JournalListResult)
        ensures
            row_views(result.entries@) == rows(self@),
            result.file_size_bytes == file_size_bytes,
            result.opaque_line_count == self@.filter(opaque()).len(),
    {
        let (last, prev) = marker_positions(&self.lines);
        let ghost all = self@;
        let mut entries: Vec<JournalEntryWithStatus> = Vec::new();
        let mut unknown: usize = 0;
        let mut i: usize = 0;
        proof {
            reveal(Seq::filter);
            assert(row_views(entries@) =~= rows_upto(all, 0));
            assert(all.take(0) =~= Seq::empty());
        }
        while i < self.lines.len()
            invariant
                i <= self.lines.len(),
                all == models(self.lines@),
                match last {
                    Some(l) => last_marker(all) == Some(l as int),
                    None => last_marker(all) is None,
                },
                match prev {
                    Some(p) => previous_marker(all) == Some(p as int),
                    None => previous_marker(all) is None,
                },
                row_views(entries@) == rows_upto(all, i as int),
                unknown == all.take(i as int).filter(opaque()).len(),
                unknown <= i,
            decreases self.lines.len() - i,
        {
            proof {
                reveal(Seq::filter);
                assert(all[i as int] == self.lines@[i as int]@);
                assert(all.take(i + 1).drop_last() =~= all.take(i as int));
                assert(all.take(i + 1).last() == all[i as int]);
            }
            match &self.lines[i] {
                JournalLine::Entry { entry, raw } => {
                    proof {
                        lemma_markers_behind(all, i as int);
                    }
                    let row = JournalEntryWithStatus {
                        entry: entry.copy(),
                        status: entry_status(i, last, prev),
                        raw: raw.clone(),
                    };
                    proof {
                        assert(row_views(entries@.push(row)) =~= row_views(entries@).push(row@));
                    }
                    entries.push(row);
                },
                JournalLine::Marker { .. } => {},
                JournalLine::Opaque { .. } => {
                    unknown = unknown + 1;
                },
            }
            i = i + 1;
        }
        proof {
            assert(all.take(i as int) =~= all);
        }
        JournalListResult { entries, file_size_bytes, opaque_line_count: unknown }
    }

    /// The entries that no harvest consumed, with their exact texts.
    pub fn unconsumed_with_raw(&self) -> (fresh: Vec<JournalEntryWithStatus>)
        ensures
            row_views(fresh@) == rows(self@).filter(is_fresh()),
    {
        let listed = self.list(0);
        let ghost all = row_views(listed.entries@);
        let mut fresh: Vec<JournalEntryWithStatus> = Vec::new();
        let mut i: usize = 0;
        proof {
            reveal(Seq::filter);
            assert(all.take(0) =~= Seq::empty());
            assert(row_views(fresh@) =~= all.take(0).filter(is_fresh()));
        }
        while i < listed.entries.len()
            invariant
                i <= listed.entries.len(),
                all == row_views(listed.entries@),
                row_views(fresh@) == all.take(i as int).filter(is_fresh()),
            decreases listed.entries.len() - i,
        {
            proof {
                reveal(Seq::filter);
                assert(all.take(i + 1).drop_last() =~= all.take(i as int));
                assert(all.take(i + 1).last() == listed.entries@[i as int]@);
            }
            let row = &listed.entries[i];
            if row.status == JournalEntryStatus::Unconsumed {
                let copy = JournalEntryWithStatus {
                    entry: row.entry.copy(),
                    status: row.status,
                    raw: row.raw.clone(),
                };
                proof {
                    assert(row_views(fresh@.push(copy)) =~= row_views(fresh@).push(copy@));
                }
                fresh.push(copy);
            }
            i = i + 1;
        }
        proof {
            assert(all.take(i as int) =~= all);
        }
        fresh
    }

    /// The entries that no harvest consumed.
    pub fn unconsumed(&self) -> (fresh: Vec<JournalEntry>)
        ensures
            fresh@.map_values(|e: JournalEntry| e@) == rows(self@).filter(is_fresh()).map_values(
                |r: RowModel| r.entry,
            ),
    {
        let listed = self.unconsumed_with_raw();
        let ghost all = rows(self@).filter(is_fresh());
        let mut fresh: Vec<JournalEntry> = Vec::new();
        let mut i: usize = 0;
        while i < listed.len()
            invariant
                i <= listed.len(),
                all == row_views(listed@),
                fresh.len() == i,
                forall|j: int| 0 <= j < i ==> (#[trigger] fresh@[j])@ == all[j].entry,
            decreases listed.len() - i,
        {
            fresh.push(listed[i].entry.copy());
            i = i + 1;
        }
        proof {
            assert(fresh@.map_values(|e: JournalEntry| e@) =~= all.map_values(
                |r: RowModel| r.entry,
            ));
        }
        fresh
    }

    /// Deletes every entry whose line is exactly `raw_line`: lines that read the same
    /// cannot be told apart. Markers and lines of no known shape are never matched.
    /// Says how many lines went.
    pub fn delete_entry(&mut self, raw_line: &str) -> (removed: usize)
        ensures
            final(self)@ == old(self)@.filter(is_no_entry_with(raw_line@)),
            removed == old(self)@.filter(is_entry_with(raw_line@)).len(),
            removed == old(self)@.len() - final(self)@.len(),
            final(self).open_end() == old(self).open_end(),
    {
        let mut todo: Vec<JournalLine> = Vec::new();
        core::mem::swap(&mut todo, &mut self.lines);
        let ghost all = models(todo@);
        let ghost drop = is_entry_with(raw_line@);
        let ghost keep = is_no_entry_with(raw_line@);
        let ghost mut n: int = 0;
        let mut removed: usize = 0;
        proof {
            reveal(Seq::filter);
            assert(all.take(0) =~= Seq::empty());
            assert(all.skip(0) =~= all);
            assert(models(self.lines@) =~= all.take(0).filter(keep));
            assert(todo.len() == all.len());
        }
        loop
            invariant
                0 <= n <= all.len(),
                all == old(self)@,
                all.len() <= usize::MAX,
                models(todo@) == all.skip(n),
                drop == is_entry_with(raw_line@),
                keep == is_no_entry_with(raw_line@),
                models(self.lines@) == all.take(n).filter(keep),
                removed == all.take(n).filter(drop).len(),
                removed == n - all.take(n).filter(keep).len(),
                self.open_end == old(self).open_end,
            decreases all.len() - n,
        {
            if todo.len() == 0 {
                proof {
                    assert(models(todo@).len() == 0);
                    assert(all.take(n) =~= all);
                }
                return removed;
            }
            proof {
                assert(models(todo@).len() == todo.len());
                assert(n < all.len());
            }
            let ghost rest = todo@;
            let line = todo.remove(0);
            proof {
                reveal(Seq::filter);
                assert(models(rest)[0] == line@);
                assert forall|j: int| 0 <= j < todo@.len() implies #[trigger] models(todo@)[j]
                    == all.skip(n + 1)[j] by {
                    assert(models(rest)[j + 1] == rest[j + 1]@);
                    assert(models(rest)[j + 1] == all.skip(n)[j + 1]);
                }
                assert(models(todo@) =~= all.skip(n + 1));
                assert(all.take(n + 1).drop_last() =~= all.take(n));
                assert(all.take(n + 1).last() == line@);
            }
            let hit: bool = match &line {
                JournalLine::Entry { raw, .. } => same(raw.as_str(), raw_line),
                _ => false,
            };
            if hit {
                removed = removed + 1;
            } else {
                proof {
                    assert(models(self.lines@.push(line)) =~= models(self.lines@).push(line@));
                }
                self.lines.push(line);
            }
            proof {
                n = n + 1;
            }
        }
    }
}

/// The journal file in a directory.
pub open spec fn journal_file_text(journal_dir: Seq<char>, separator: char) -> Seq<char> {
    let dir = if journal_dir.len() == 0 || journal_dir.last() == separator {
        journal_dir
    } else {
        journal_dir.push(separator)
    };
    normalized_project(dir + JOURNAL_FILE@)
}

/// The journal file's path as instructions name it: in the journal directory, in its
/// normal spelling.
pub fn default_journal_file(journal_dir: &str, separator: char) -> (path: String)
    ensures
        path@ == journal_file_text(journal_dir@, separator),
{
    let chars = to_chars(journal_dir);
    let mut path = owned(journal_dir);
    if chars.len() > 0 && chars[chars.len() - 1] != separator {
        path.push(separator);
    }
    path.append(JOURNAL_FILE);
    normalize_project(path.as_str())
}

} // verus!
