//! Records of pull-request reviews, one for each review terminal.

use std::collections::HashSet;
use vstd::prelude::*;
use crate::clock::{format_rfc3339, format_stamp, rfc3339_text, stamp_text, utc_now, Moment};
use crate::decimal::{decimal, lemma_decimal, lemma_decimal_injective, push_decimal};
use crate::handoff_file::{dash_runs, dashed, opt_view};
use crate::paths::{normalize_project, normalized_project};
use crate::text::{is_alnum, is_digit, lowered, owned, same, to_chars};
use crate::words::{ends_with, matches_at, occurs_at, starts_with};

verus! {

/// The directory, inside the `runs` root, that holds the records.
pub const PR_RUNS_DIR: &'static str = "pr";

/// What [`to_lowercase`] makes of a text.
pub uninterp spec fn lowercase_text(text: Seq<char>) -> Seq<char>;

/// `str::to_lowercase`: the lower-case equivalent by Unicode's rules, a function of
/// the text. An ASCII text has its capitals replaced one by one.
#[verifier::external_body]
fn to_lowercase(text: &str) -> (low: String)
    ensures
        low@ == lowercase_text(text@),
        (forall|i: int| 0 <= i < text@.len() ==> (#[trigger] text@[i]) as u32 <= 0x7f) ==> low@
            == lowered(text@),
{
    text.to_lowercase()
}

/// What a record is about.
#[derive(Debug, Clone, Copy, PartialEq, Eq, Structural)]
pub enum PrRunKind {
    /// A review of a pull request.
    PrReview,
}

/// What the launch of a review says of itself.
#[derive(Debug, Clone, PartialEq)]
pub struct PrReviewLaunch {
    /// The number of the pull request.
    pub pr: u32,
    /// Its title; may be empty.
    pub title: String,
    /// `owner/repo`; may be empty.
    pub repo: String,
    /// The checkout in which the terminal was opened.
    pub project_path: String,
    /// The steps that were chosen, in order.
    pub steps: Vec<String>,
}

/// A brief that was written to disk.
#[derive(Debug, Clone, PartialEq)]
pub struct StagedBrief {
    /// The directory that it is relative to.
    pub root: String,
    /// Its path below that directory.
    pub relpath: String,
}

/// One review, as it is kept on disk.
#[derive(Debug, Clone, PartialEq)]
pub struct PrReviewRun {
    /// What the record is about.
    pub kind: PrRunKind,
    /// The number of the pull request.
    pub pr: u32,
    /// Its title.
    pub title: String,
    /// `owner/repo`.
    pub repo: String,
    /// The checkout in which the terminal was opened.
    pub project_path: String,
    /// The steps that were chosen, in order.
    pub steps: Vec<String>,
    /// The brief's path, relative to `brief_root`; none where the prompt was typed.
    pub brief: Option<String>,
    /// The directory that the brief was written into. Older records lack it.
    pub brief_root: Option<String>,
    /// The terminal session.
    pub session_id: u32,
    /// The launch of the application that opened the session. Older records have an
    /// empty one.
    pub launch_id: String,
    /// When the record was made.
    pub created_at: String,
}

/// A brief's directory and its path below it.
#[derive(Debug, Clone, PartialEq)]
pub struct BriefPath {
    /// The directory.
    pub root: String,
    /// The path below it.
    pub relpath: String,
}

impl BriefPath {
    /// The directory and the path.
    pub open spec fn parts(&self) -> (Seq<char>, Seq<char>) {
        (self.root@, self.relpath@)
    }
}

/// The parts of an optional brief path.
pub open spec fn opt_parts(path: Option<BriefPath>) -> Option<(Seq<char>, Seq<char>)> {
    match path {
        Some(p) => Some(p.parts()),
        None => None,
    }
}

// ---------------------------------------------------------------------------
// Launches
// ---------------------------------------------------------------------------

/// The id of an application launch: when it started, and its process.
pub open spec fn launch_id_text(started: Moment, process_id: u32) -> Seq<char> {
    stamp_text(started.secs, started.nanos) + "-"@ + decimal(process_id as nat)
}

/// The text is safe in a file name: digits and dashes.
pub open spec fn digits_and_dashes(s: Seq<char>) -> bool {
    forall|i: int| 0 <= i < s.len() ==> is_digit(#[trigger] s[i]) || s[i] == '-'
}

/// The id of an application launch at a moment. It is safe in a file name.
pub fn launch_id_at(started: Moment, process_id: u32) -> (id: String)
    requires
        started.valid(),
    ensures
        id@ == launch_id_text(started, process_id),
        started.four_digit_year() ==> digits_and_dashes(id@),
        id@.len() > 0,
{
    let stamp = format_stamp(started);
    let ghost digits = stamp@;
    let mut id = stamp;
    id.append("-");
    push_decimal(&mut id, process_id as u64);
    proof {
        reveal_strlit("-");
        lemma_decimal(process_id as nat);
        let pid = decimal(process_id as nat);
        if started.four_digit_year() {
            assert forall|i: int| 0 <= i < id@.len() implies is_digit(#[trigger] id@[i]) || id@[i]
                == '-' by {
                if i < digits.len() {
                    assert(id@[i] == digits[i]);
                } else if i > digits.len() {
                    assert(id@[i] == pid[i - digits.len() - 1]);
                    assert(is_digit(pid[i - digits.len() - 1]));
                }
            }
        }
    }
    id
}

/// The id of the launch that happens now. Session ids start over with every launch;
/// paired with the launch they mean one terminal.
pub fn new_launch_id(process_id: u32) -> (id: String)
    ensures
        exists|started: Moment|
            started.valid() && id@ == #[trigger] launch_id_text(started, process_id),
        id@.len() > 0,
{
    let started = utc_now();
    let id = launch_id_at(started, process_id);
    proof {
        assert(id@ == launch_id_text(started, process_id));
    }
    id
}

/// Whether the review's terminal is one of those open now: the record is of this
/// launch, and its session is open. A record of another launch, or of none, proves
/// nothing.
pub fn is_live(run: &PrReviewRun, launch_id: &str, open_session_ids: &HashSet<u32>) -> (live: bool)
    ensures
        live == (run.launch_id@ == launch_id@ && open_session_ids@.contains(run.session_id)),
{
    broadcast use vstd::std_specs::hash::group_hash_axioms;

    same(run.launch_id.as_str(), launch_id) && open_session_ids.contains(&run.session_id)
}

// ---------------------------------------------------------------------------
// Records
// ---------------------------------------------------------------------------

/// The id of the group that a pull request's reviews belong to.
pub open spec fn pr_group_id_text(repo: Seq<char>, number: u32) -> Seq<char> {
    "pr:"@ + repo + "#"@ + decimal(number as nat)
}

/// The id of the group that a pull request's reviews belong to:
/// `pr:<owner/repo>#<number>`.
pub fn pr_group_id(repo: &str, number: u32) -> (id: String)
    ensures
        id@ == pr_group_id_text(repo@, number),
{
    let mut id = owned("pr:");
    id.append(repo);
    id.append("#");
    push_decimal(&mut id, number as u64);
    id
}

impl PrReviewRun {
    /// The record is that of this launch in this session.
    pub open spec fn is_record_of(
        &self,
        launch: PrReviewLaunch,
        session_id: u32,
        brief: Option<StagedBrief>,
        launch_id: Seq<char>,
    ) -> bool {
        &&& self.kind is PrReview
        &&& self.pr == launch.pr
        &&& self.title == launch.title
        &&& self.repo == launch.repo
        &&& self.project_path@ == normalized_project(launch.project_path@)
        &&& self.steps == launch.steps
        &&& match brief {
            Some(staged) => opt_view(self.brief) == Some(staged.relpath@) && opt_view(
                self.brief_root,
            ) == Some(normalized_project(staged.root@)),
            None => self.brief is None && self.brief_root is None,
        }
        &&& self.session_id == session_id
        &&& self.launch_id@ == launch_id
    }

    /// A record made at a moment, with the checkout in its normal spelling.
    pub fn at(
        launch: PrReviewLaunch,
        session_id: u32,
        brief: Option<StagedBrief>,
        launch_id: &str,
        created: Moment,
    ) -> (run: Self)
        requires
            created.valid(),
        ensures
            run.is_record_of(launch, session_id, brief, launch_id@),
            run.created_at@ == rfc3339_text(created.secs, created.nanos),
    {
        let (relpath, root) = match brief {
            Some(staged) => (Some(staged.relpath), Some(normalize_project(staged.root.as_str()))),
            None => (None, None),
        };
        PrReviewRun {
            kind: PrRunKind::PrReview,
            pr: launch.pr,
            title: launch.title,
            repo: launch.repo,
            project_path: normalize_project(launch.project_path.as_str()),
            steps: launch.steps,
            brief: relpath,
            brief_root: root,
            session_id,
            launch_id: owned(launch_id),
            created_at: format_rfc3339(created),
        }
    }

    /// A record made now.
    pub fn now(
        launch: PrReviewLaunch,
        session_id: u32,
        brief: Option<StagedBrief>,
        launch_id: &str,
    ) -> (run: Self)
        ensures
            run.is_record_of(launch, session_id, brief, launch_id@),
            exists|created: Moment|
                #![trigger rfc3339_text(created.secs, created.nanos)]
                created.valid() && run.created_at@ == rfc3339_text(created.secs, created.nanos),
    {
        let created = utc_now();
        let run = Self::at(launch, session_id, brief, launch_id, created);
        proof {
            assert(run.created_at@ == rfc3339_text(created.secs, created.nanos));
        }
        run
    }

    /// The id of the group that the review belongs to.
    pub fn group_id(&self) -> (id: String)
        ensures
            id@ == pr_group_id_text(self.repo@, self.pr),
    {
        pr_group_id(self.repo.as_str(), self.pr)
    }
}

/// The text with the case of letters lowered, and its letters and digits joined by
/// single dashes.
pub open spec fn sanitized(value: Seq<char>) -> Seq<char> {
    dashed(lowercase_text(value))
}

/// Lower case, with every stretch of other characters than letters and digits turned
/// into one `-`, and none at the ends.
pub fn sanitize(value: &str) -> (text: String)
    ensures
        text@ == sanitized(value@),
        (forall|i: int| 0 <= i < value@.len() ==> (#[trigger] value@[i]) as u32 <= 0x7f) ==> text@
            == dashed(lowered(value@)),
{
    let low = to_lowercase(value);
    let chars = to_chars(low.as_str());
    dash_runs(&chars)
}

/// The name of a review's record file.
pub open spec fn record_file_name_text(
    repo: Seq<char>,
    pr: u32,
    launch_id: Seq<char>,
    session_id: u32,
) -> Seq<char> {
    sanitized(repo) + "-"@ + decimal(pr as nat) + "-"@ + launch_id + "-"@ + decimal(
        session_id as nat,
    ) + ".json"@
}

/// The name of a review's record file: one for each terminal of each launch, so that
/// a re-armed terminal rewrites its own and no other.
pub fn record_file_name(run: &PrReviewRun) -> (name: String)
    ensures
        name@ == record_file_name_text(run.repo@, run.pr, run.launch_id@, run.session_id),
{
    let mut name = sanitize(run.repo.as_str());
    name.append("-");
    push_decimal(&mut name, run.pr as u64);
    name.append("-");
    name.append(run.launch_id.as_str());
    name.append("-");
    push_decimal(&mut name, run.session_id as u64);
    name.append(".json");
    name
}

/// Where the brief was written, if that is proved: the record has both halves, and
/// the directory is absolute.
pub open spec fn staged_brief(run: PrReviewRun, root_is_absolute: bool) -> Option<
    (Seq<char>, Seq<char>),
> {
    match (opt_view(run.brief), opt_view(run.brief_root)) {
        (Some(relpath), Some(root)) if root_is_absolute => Some((root, relpath)),
        _ => None,
    }
}

/// Where the brief is listed: where it was written, if a directory was recorded; else in
/// the checkout.
pub open spec fn listed_brief(run: PrReviewRun, root_is_absolute: bool) -> Option<
    (Seq<char>, Seq<char>),
> {
    if run.brief_root is Some {
        staged_brief(run, root_is_absolute)
    } else {
        match opt_view(run.brief) {
            Some(relpath) => Some((run.project_path@, relpath)),
            None => None,
        }
    }
}

/// Where the brief was written, if that is proved. A relative directory would mean
/// whatever directory the application was started in.
pub fn staged_brief_path(run: &PrReviewRun, root_is_absolute: bool) -> (path: Option<BriefPath>)
    ensures
        opt_parts(path) == staged_brief(*run, root_is_absolute),
{
    match (&run.brief, &run.brief_root) {
        (Some(relpath), Some(root)) => if root_is_absolute {
            Some(BriefPath { root: root.clone(), relpath: relpath.clone() })
        } else {
            None
        },
        _ => None,
    }
}

/// The brief's path for a listing. With a recorded directory it is the proved one;
/// an older record falls back to the checkout, a guess that costs a row at most.
pub fn brief_path(run: &PrReviewRun, root_is_absolute: bool) -> (path: Option<BriefPath>)
    ensures
        opt_parts(path) == listed_brief(*run, root_is_absolute),
{
    if run.brief_root.is_some() {
        return staged_brief_path(run, root_is_absolute);
    }
    match &run.brief {
        Some(relpath) => Some(
            BriefPath { root: run.project_path.clone(), relpath: relpath.clone() },
        ),
        None => None,
    }
}

// ---------------------------------------------------------------------------
// The store
// ---------------------------------------------------------------------------

/// A file that was found in the records' directory.
#[derive(Debug)]
pub struct RecordFile {
    /// Its path.
    pub path: String,
    /// Its name.
    pub name: String,
    /// The record in it, where it could be read.
    pub run: Option<PrReviewRun>,
}

/// The file's extension is `json`: it is what follows the last dot of its name, which
/// is not the first character.
pub open spec fn is_record_name(name: Seq<char>) -> bool {
    &&& name.len() > 5
    &&& occurs_at(name, ".json"@, name.len() - 5)
}

/// The record with its paths in their normal spelling.
pub open spec fn is_repaired(repaired: PrReviewRun, run: PrReviewRun) -> bool {
    &&& repaired.project_path@ == normalized_project(run.project_path@)
    &&& opt_view(repaired.brief_root) == (match opt_view(run.brief_root) {
        Some(root) => Some(normalized_project(root)),
        None => None,
    })
    &&& repaired == (PrReviewRun {
        project_path: repaired.project_path,
        brief_root: repaired.brief_root,
        ..run
    })
}

/// The files that hold a readable record.
pub open spec fn readable() -> spec_fn(RecordFile) -> bool {
    |f: RecordFile| is_record_name(f.name@) && f.run is Some
}

/// Where the records are kept.
#[derive(Debug)]
pub struct PrRunStore {
    runs_dir: String,
}

impl View for PrRunStore {
    type V = Seq<char>;

    closed spec fn view(&self) -> Seq<char> {
        self.runs_dir@
    }
}

impl PrRunStore {
    /// The store below the `runs` root.
    pub fn new(runs_dir: String) -> (store: Self)
        ensures
            store@ == runs_dir@,
    {
        PrRunStore { runs_dir }
    }

    /// The `runs` root, and the directory in it that holds the records.
    pub fn base_dir(&self) -> (dir: (&str, &str))
        ensures
            dir.0@ == self@,
            dir.1@ == PR_RUNS_DIR@,
    {
        (self.runs_dir.as_str(), PR_RUNS_DIR)
    }

    /// The readable records among the files, with their paths, in order. A record
    /// from before has its paths repaired, in memory only.
    pub fn list_with_paths(files: Vec<RecordFile>) -> (records: Vec<(String, PrReviewRun)>)
        ensures
            are_records(records@, files@.filter(readable())),
    {
        let ghost all = files@;
        let mut todo = files;
        let mut records: Vec<(String, PrReviewRun)> = Vec::new();
        let ghost mut n: int = 0;
        proof {
            reveal(Seq::filter);
            assert(all.take(0) =~= Seq::empty());
            assert(all.skip(0) =~= all);
        }
        loop
            invariant
                0 <= n <= all.len(),
                all == files@,
                todo@ == all.skip(n),
                are_records(records@, all.take(n).filter(readable())),
            decreases all.len() - n,
        {
            if todo.len() == 0 {
                proof {
                    assert(all.take(n) =~= all);
                }
                return records;
            }
            let file = todo.remove(0);
            let ghost before = records@;
            proof {
                reveal(Seq::filter);
                assert(file == all[n]);
                assert(todo@ =~= all.skip(n + 1));
                assert(all.take(n + 1).drop_last() =~= all.take(n));
                assert(all.take(n + 1).last() == all[n]);
            }
            let named: bool = has_record_name(file.name.as_str());
            match file.run {
                Some(run) => {
                    if named {
                        let repaired = repair(run);
                        records.push((file.path, repaired));
                        proof {
                            lemma_records_push(
                                before,
                                all.take(n).filter(readable()),
                                records@.last(),
                                all[n],
                            );
                        }
                    }
                },
                None => {},
            }
            proof {
                n = n + 1;
            }
        }
    }
}

/// The records are those of the files, in order.
pub open spec fn are_records(
    records: Seq<(String, PrReviewRun)>,
    files: Seq<RecordFile>,
) -> bool {
    &&& records.len() == files.len()
    &&& forall|i: int|
        #![trigger records[i]]
        #![trigger files[i]]
        0 <= i < files.len() ==> records[i].0 == files[i].path && is_repaired(
            records[i].1,
            files[i].run->0,
        )
}

proof fn lemma_records_push(
    records: Seq<(String, PrReviewRun)>,
    files: Seq<RecordFile>,
    record: (String, PrReviewRun),
    file: RecordFile,
)
    requires
        are_records(records, files),
        record.0 == file.path,
        is_repaired(record.1, file.run->0),
    ensures
        are_records(records.push(record), files.push(file)),
{
    let a = records.push(record);
    let b = files.push(file);
    assert forall|i: int|
        #![trigger a[i]]
        #![trigger b[i]]
        0 <= i < b.len() implies a[i].0 == b[i].path && is_repaired(a[i].1, b[i].run->0) by {
        if i < files.len() {
            assert(a[i] == records[i] && b[i] == files[i]);
        }
    }
}

/// Whether the file's extension is `json`.
fn has_record_name(name: &str) -> (r: bool)
    ensures
        r == is_record_name(name@),
{
    let chars = to_chars(name);
    let suffix = to_chars(".json");
    proof {
        reveal_strlit(".json");
    }
    chars.len() > 5 && matches_at(&chars, &suffix, chars.len() - 5)
}

/// The record with its paths in their normal spelling.
fn repair(run: PrReviewRun) -> (repaired: PrReviewRun)
    ensures
        is_repaired(repaired, run),
{
    let project_path = normalize_project(run.project_path.as_str());
    let brief_root = match &run.brief_root {
        Some(root) => Some(normalize_project(root.as_str())),
        None => None,
    };
    PrReviewRun { project_path, brief_root, ..run }
}

// ---------------------------------------------------------------------------
// Laws
// ---------------------------------------------------------------------------

/// Text that ends in a number after a separator that is no digit is read in one way
/// only.
proof fn lemma_number_at_end(a: Seq<char>, m: u32, b: Seq<char>, n: u32, sep: char)
    requires
        a.push(sep) + decimal(m as nat) == b.push(sep) + decimal(n as nat),
        !is_digit(sep),
    ensures
        a == b,
        m == n,
{
    lemma_decimal(m as nat);
    lemma_decimal(n as nat);
    let x = decimal(m as nat);
    let y = decimal(n as nat);
    let s = a.push(sep) + x;
    let t = b.push(sep) + y;
    assert(s.len() == a.len() + 1 + x.len());
    assert(t.len() == b.len() + 1 + y.len());
    if a.len() < b.len() {
        assert(t[b.len() as int] == sep);
        assert(s[b.len() as int] == x[b.len() - a.len() - 1]);
        assert(is_digit(x[b.len() - a.len() - 1]));
    } else if b.len() < a.len() {
        assert(s[a.len() as int] == sep);
        assert(t[a.len() as int] == y[a.len() - b.len() - 1]);
        assert(is_digit(y[a.len() - b.len() - 1]));
    }
    assert(a =~= s.take(a.len() as int));
    assert(b =~= t.take(b.len() as int));
    assert(x =~= s.skip(a.len() as int + 1));
    assert(y =~= t.skip(b.len() as int + 1));
    lemma_decimal_injective(m as nat, n as nat);
}

/// Reviews belong to the same group if and only if they are of the same pull request
/// of the same repository.
pub proof fn law_groups_are_pull_requests(
    repo: Seq<char>,
    number: u32,
    other_repo: Seq<char>,
    other_number: u32,
)
    ensures
        pr_group_id_text(repo, number) == pr_group_id_text(other_repo, other_number) <==> repo
            == other_repo && number == other_number,
{
    reveal_strlit("#");
    let prefix = "pr:"@;
    if pr_group_id_text(repo, number) == pr_group_id_text(other_repo, other_number) {
        let a = prefix + repo;
        let b = prefix + other_repo;
        assert(a + "#"@ =~= a.push('#'));
        assert(b + "#"@ =~= b.push('#'));
        lemma_number_at_end(a, number, b, other_number, '#');
        assert(repo =~= a.skip(prefix.len() as int));
        assert(other_repo =~= b.skip(prefix.len() as int));
    }
}

/// Each review terminal has a record file of its own: records of one pull request
/// share a file only where they are of the same session of the same launch. The time
/// of making does not count, so a terminal that is armed again rewrites its record.
pub proof fn law_one_record_for_each_terminal(
    repo: Seq<char>,
    pr: u32,
    launch: Seq<char>,
    session: u32,
    other_launch: Seq<char>,
    other_session: u32,
)
    ensures
        record_file_name_text(repo, pr, launch, session) == record_file_name_text(
            repo,
            pr,
            other_launch,
            other_session,
        ) <==> launch == other_launch && session == other_session,
{
    reveal_strlit("-");
    let head = sanitized(repo) + "-"@ + decimal(pr as nat) + "-"@;
    let s = record_file_name_text(repo, pr, launch, session);
    let t = record_file_name_text(repo, pr, other_launch, other_session);
    if s == t {
        let a = head + launch;
        let b = head + other_launch;
        let suffix = ".json"@;
        let x = a + "-"@ + decimal(session as nat);
        let y = b + "-"@ + decimal(other_session as nat);
        assert(s == x + suffix);
        assert(t == y + suffix);
        assert(x =~= s.take(s.len() - suffix.len()));
        assert(y =~= t.take(t.len() - suffix.len()));
        assert(a + "-"@ =~= a.push('-'));
        assert(b + "-"@ =~= b.push('-'));
        lemma_number_at_end(a, session, b, other_session, '-');
        assert(launch =~= a.skip(head.len() as int));
        assert(other_launch =~= b.skip(head.len() as int));
    }
}

/// The repository's part of a file name holds letters, digits and dashes only.
pub proof fn law_sanitized_is_safe(value: Seq<char>)
    ensures
        forall|i: int|
            0 <= i < sanitized(value).len() ==> is_alnum(#[trigger] sanitized(value)[i])
                || sanitized(value)[i] == '-',
{
    crate::handoff_file::lemma_dashed_is_safe(lowercase_text(value));
}

/// The listed path and the proved path of a brief are the same wherever a directory
/// was recorded. Nothing is proved of a brief without a directory, or with one that is
/// not absolute.
pub proof fn law_listed_is_what_is_proved(run: PrReviewRun, root_is_absolute: bool)
    ensures
        run.brief_root is Some ==> listed_brief(run, root_is_absolute) == staged_brief(
            run,
            root_is_absolute,
        ),
        !root_is_absolute ==> staged_brief(run, root_is_absolute) is None,
        run.brief_root is None ==> staged_brief(run, root_is_absolute) is None,
        run.brief is None ==> staged_brief(run, root_is_absolute) is None,
{
}

impl PrReviewRun {
    /// The name of the record's file.
    pub open spec fn file_name(&self) -> Seq<char> {
        record_file_name_text(self.repo@, self.pr, self.launch_id@, self.session_id)
    }

    /// The record's paths are in their normal spelling, as they are in a record that was
    /// just made.
    pub open spec fn is_normal(&self) -> bool {
        &&& normalized_project(self.project_path@) == self.project_path@
        &&& opt_view(self.brief_root) matches Some(root) ==> normalized_project(root) == root
    }

    /// The two records say the same.
    pub open spec fn says_what(&self, run: PrReviewRun) -> bool {
        &&& self.project_path@ == run.project_path@
        &&& opt_view(self.brief_root) == opt_view(run.brief_root)
        &&& *self == (PrReviewRun {
            project_path: self.project_path,
            brief_root: self.brief_root,
            ..run
        })
    }
}

/// The records' directory after a record was written: it replaces the one of its name.
pub open spec fn recorded(dir: Map<Seq<char>, PrReviewRun>, run: PrReviewRun) -> Map<
    Seq<char>,
    PrReviewRun,
> {
    dir.insert(run.file_name(), run)
}

/// The files are those of the directory, each once, in any order.
pub open spec fn are_files_of(files: Seq<RecordFile>, dir: Map<Seq<char>, PrReviewRun>) -> bool {
    &&& forall|i: int, j: int|
        0 <= i < j < files.len() ==> (#[trigger] files[i]).name@ != (#[trigger] files[j]).name@
    &&& forall|i: int|
        0 <= i < files.len() ==> dir.dom().contains((#[trigger] files[i]).name@) && files[i].run
            == Some(dir[files[i].name@])
    &&& forall|name: Seq<char>| #[trigger] dir.dom().contains(name) ==> has_file(files, name)
}

/// One of the files has the name.
pub open spec fn has_file(files: Seq<RecordFile>, name: Seq<char>) -> bool {
    exists|i: int| 0 <= i < files.len() && (#[trigger] files[i]).name@ == name
}

/// A record's file name is one that the listing reads.
proof fn lemma_file_name_is_record_name(run: PrReviewRun)
    ensures
        is_record_name(run.file_name()),
{
    reveal_strlit(".json");
    reveal_strlit("-");
    let name = run.file_name();
    let n = name.len() as int;
    assert(name.subrange(n - 5, n) =~= ".json"@);
}

/// A file that can be read is listed, and files of different names stay so.
proof fn lemma_readable_files(files: Seq<RecordFile>, dir: Map<Seq<char>, PrReviewRun>)
    requires
        are_files_of(files, dir),
    ensures
        ({
            let shown = files.filter(readable());
            &&& forall|i: int, j: int|
                0 <= i < j < shown.len() ==> (#[trigger] shown[i]).name@ != (
                #[trigger] shown[j]).name@
            &&& forall|i: int|
                0 <= i < shown.len() ==> dir.dom().contains((#[trigger] shown[i]).name@)
                    && shown[i].run == Some(dir[shown[i].name@])
            &&& forall|name: Seq<char>| #[trigger]
                dir.dom().contains(name) && is_record_name(name) ==> has_file(shown, name)
        }),
{
    let shown = files.filter(readable());
    lemma_filter_names(files);
    assert forall|i: int| 0 <= i < shown.len() implies dir.dom().contains(
        (#[trigger] shown[i]).name@,
    ) && shown[i].run == Some(dir[shown[i].name@]) by {
        let j = choose|j: int| 0 <= j < files.len() && files[j] == shown[i];
        assert(files[j] == shown[i]);
    }
    assert forall|name: Seq<char>| #[trigger]
        dir.dom().contains(name) && is_record_name(name) implies has_file(shown, name) by {
        let i = choose|i: int| 0 <= i < files.len() && (#[trigger] files[i]).name@ == name;
        assert(readable()(files[i]));
        let j = lemma_filter_has(files, i);
        assert(shown[j].name@ == name);
    }
}

proof fn lemma_filter_has(files: Seq<RecordFile>, i: int) -> (j: int)
    requires
        0 <= i < files.len(),
        readable()(files[i]),
    ensures
        0 <= j < files.filter(readable()).len(),
        files.filter(readable())[j] == files[i],
    decreases files.len(),
{
    reveal(Seq::filter);
    let init = files.drop_last();
    if i == files.len() - 1 {
        init.filter(readable()).len() as int
    } else {
        assert(init[i] == files[i]);
        let j = lemma_filter_has(init, i);
        assert(files.filter(readable())[j] == init.filter(readable())[j]);
        j
    }
}

proof fn lemma_filter_names(files: Seq<RecordFile>)
    requires
        forall|i: int, j: int|
            0 <= i < j < files.len() ==> (#[trigger] files[i]).name@ != (#[trigger] files[j]).name@,
    ensures
        ({
            let shown = files.filter(readable());
            &&& forall|i: int, j: int|
                0 <= i < j < shown.len() ==> (#[trigger] shown[i]).name@ != (
                #[trigger] shown[j]).name@
            &&& forall|i: int|
                0 <= i < shown.len() ==> exists|k: int|
                    0 <= k < files.len() && files[k] == #[trigger] shown[i]
        }),
    decreases files.len(),
{
    reveal(Seq::filter);
    let shown = files.filter(readable());
    if files.len() > 0 {
        let init = files.drop_last();
        assert forall|i: int, j: int| 0 <= i < j < init.len() implies (#[trigger] init[i]).name@
            != (#[trigger] init[j]).name@ by {
            assert(init[i] == files[i] && init[j] == files[j]);
        }
        lemma_filter_names(init);
        let before = init.filter(readable());
        assert forall|i: int| 0 <= i < shown.len() implies exists|k: int|
            0 <= k < files.len() && files[k] == #[trigger] shown[i] by {
            if i < before.len() {
                assert(shown[i] == before[i]);
                let k = choose|k: int| 0 <= k < init.len() && init[k] == before[i];
                assert(files[k] == shown[i]);
            } else {
                assert(files[files.len() - 1] == shown[i]);
            }
        }
        assert forall|i: int, j: int| 0 <= i < j < shown.len() implies (#[trigger] shown[i]).name@
            != (#[trigger] shown[j]).name@ by {
            assert(shown[i] == before[i]);
            let a = choose|a: int| 0 <= a < init.len() && init[a] == before[i];
            assert(files[a] == shown[i]);
            if j < before.len() {
                assert(shown[j] == before[j]);
            } else {
                assert(files[files.len() - 1] == shown[j]);
            }
        }
    }
}

/// What was recorded is listed. Of two records that were written one after the other the
/// second is listed, and it is the only one under its name. The first is listed too, unless
/// it has the same name. Two records of one pull request have the same name if and only if
/// they are of the same session of the same launch.
pub proof fn law_recorded_runs_are_listed(
    dir: Map<Seq<char>, PrReviewRun>,
    a: PrReviewRun,
    b: PrReviewRun,
    files: Seq<RecordFile>,
    records: Seq<(String, PrReviewRun)>,
)
    requires
        a.is_normal(),
        b.is_normal(),
        are_files_of(files, recorded(recorded(dir, a), b)),
        are_records(records, files.filter(readable())),
    ensures
        ({
            let shown = files.filter(readable());
            &&& exists|i: int|
                0 <= i < records.len() && (#[trigger] shown[i]).name@ == b.file_name()
                    && records[i].0 == shown[i].path && records[i].1.says_what(b)
            &&& forall|i: int, j: int|
                0 <= i < shown.len() && 0 <= j < shown.len() && (#[trigger] shown[i]).name@
                    == b.file_name() && (#[trigger] shown[j]).name@ == b.file_name() ==> i == j
            &&& a.file_name() != b.file_name() ==> exists|i: int|
                0 <= i < records.len() && (#[trigger] shown[i]).name@ == a.file_name()
                    && records[i].0 == shown[i].path && records[i].1.says_what(a)
            &&& a.repo@ == b.repo@ && a.pr == b.pr ==> (a.file_name() == b.file_name() <==> (
            a.launch_id@ == b.launch_id@ && a.session_id == b.session_id))
        }),
{
    let now = recorded(recorded(dir, a), b);
    let shown = files.filter(readable());
    lemma_readable_files(files, now);
    lemma_file_name_is_record_name(a);
    lemma_file_name_is_record_name(b);
    assert(now.dom().contains(b.file_name()));
    assert(has_file(shown, b.file_name()));
    let i = choose|i: int| 0 <= i < shown.len() && (#[trigger] shown[i]).name@ == b.file_name();
    assert(is_repaired(records[i].1, shown[i].run->0));
    assert(records[i].1.says_what(b));
    if a.file_name() != b.file_name() {
        assert(now.dom().contains(a.file_name()));
        assert(has_file(shown, a.file_name()));
        let j = choose|j: int| 0 <= j < shown.len() && (#[trigger] shown[j]).name@ == a.file_name();
        assert(is_repaired(records[j].1, shown[j].run->0));
        assert(records[j].1.says_what(a));
    }
    law_one_record_for_each_terminal(
        a.repo@,
        a.pr,
        a.launch_id@,
        a.session_id,
        b.launch_id@,
        b.session_id,
    );
}

/// A record's file is named by its pull request too: records of one repository, launch and
/// session share a file only where they are of the same pull request. The name begins with
/// the repository and ends in `.json`.
pub proof fn law_a_record_is_named_by_its_pull_request(
    repo: Seq<char>,
    pr: u32,
    other_pr: u32,
    launch: Seq<char>,
    session: u32,
)
    ensures
        record_file_name_text(repo, pr, launch, session) == record_file_name_text(
            repo,
            other_pr,
            launch,
            session,
        ) <==> pr == other_pr,
        starts_with(record_file_name_text(repo, pr, launch, session), sanitized(repo) + "-"@),
        ends_with(record_file_name_text(repo, pr, launch, session), ".json"@),
{
    let head = sanitized(repo) + "-"@;
    let tail = "-"@ + launch + "-"@ + decimal(session as nat) + ".json"@;
    let s = record_file_name_text(repo, pr, launch, session);
    let t = record_file_name_text(repo, other_pr, launch, session);
    let m = decimal(pr as nat);
    let n = decimal(other_pr as nat);
    assert(s =~= head + m + tail);
    assert(t =~= head + n + tail);
    assert(s.take(head.len() as int) =~= head);
    assert(s.skip(s.len() - ".json"@.len()) =~= ".json"@);
    if s == t {
        assert(m =~= s.subrange(head.len() as int, s.len() - tail.len()));
        assert(n =~= t.subrange(head.len() as int, t.len() - tail.len()));
        lemma_decimal_injective(pr as nat, other_pr as nat);
    }
}

/// A record says what its launch said, with the paths in their normal spelling, and names
/// the session and the launch of its terminal.
pub proof fn law_what_a_record_says(
    run: PrReviewRun,
    launch: PrReviewLaunch,
    session_id: u32,
    brief: Option<StagedBrief>,
    launch_id: Seq<char>,
)
    requires
        run.is_record_of(launch, session_id, brief, launch_id),
    ensures
        run.kind == PrRunKind::PrReview,
        run.pr == launch.pr,
        run.title@ == launch.title@,
        run.repo@ == launch.repo@,
        run.project_path@ == normalized_project(launch.project_path@),
        run.steps@ == launch.steps@,
        run.session_id == session_id,
        run.launch_id@ == launch_id,
        brief is None ==> run.brief is None && run.brief_root is None,
        brief matches Some(staged) ==> (run.brief matches Some(relpath) && relpath@
            == staged.relpath@) && (run.brief_root matches Some(root) && root@
            == normalized_project(staged.root@)),
{
}

/// A brief is where it was written: below the recorded directory, if that is absolute. Of a
/// record without a directory it is listed below the checkout; a record without a brief
/// lists none.
pub proof fn law_where_a_brief_is(run: PrReviewRun, root_is_absolute: bool)
    ensures
        run.brief is None ==> listed_brief(run, root_is_absolute) is None,
        run.brief matches Some(relpath) ==> match run.brief_root {
            Some(root) => if root_is_absolute {
                staged_brief(run, root_is_absolute) == Some((root@, relpath@)) && listed_brief(
                    run,
                    root_is_absolute,
                ) == Some((root@, relpath@))
            } else {
                listed_brief(run, root_is_absolute) is None
            },
            None => listed_brief(run, root_is_absolute) == Some((run.project_path@, relpath@)),
        },
{
}

/// The listing has every record that could be read from a file whose name ends in `.json`,
/// under the path of its file, wherever the file stands; it has nothing else. Of what was
/// read only the spelling of the two paths may change.
pub proof fn law_every_readable_record_is_listed(
    records: Seq<(String, PrReviewRun)>,
    files: Seq<RecordFile>,
)
    requires
        are_records(records, files.filter(readable())),
    ensures
        forall|i: int|
            0 <= i < files.len() && ends_with((#[trigger] files[i]).name@, ".json"@)
                && files[i].name@.len() > 5 && files[i].run is Some ==> is_listed(
                records,
                files[i].path,
                files[i].run->0,
            ),
        forall|k: int| 0 <= k < records.len() ==> is_of_file(files, #[trigger] records[k]),
{
    reveal_strlit(".json");
    let keep = readable();
    let kept = files.filter(keep);
    assert forall|i: int|
        0 <= i < files.len() && ends_with((#[trigger] files[i]).name@, ".json"@)
            && files[i].name@.len() > 5 && files[i].run is Some implies is_listed(
        records,
        files[i].path,
        files[i].run->0,
    ) by {
        let name = files[i].name@;
        assert(name.subrange(name.len() - 5, name.len() as int) =~= name.skip(name.len() - 5));
        files.lemma_filter_contains(keep, i);
        let k = choose|k: int| 0 <= k < kept.len() && kept[k] == files[i];
        assert(records[k].0 == kept[k].path);
    }
    assert forall|k: int| 0 <= k < records.len() implies is_of_file(
        files,
        #[trigger] records[k],
    ) by {
        assert(kept.contains(kept[k]));
        files.lemma_filter_contains_rev(keep, kept[k]);
        files.lemma_filter_pred(keep, k);
        let i = choose|i: int| 0 <= i < files.len() && files[i] == kept[k];
        assert(files[i].path == records[k].0);
    }
}

/// One of the records is that of the file at `path`, which held `run`.
pub open spec fn is_listed(
    records: Seq<(String, PrReviewRun)>,
    path: String,
    run: PrReviewRun,
) -> bool {
    exists|k: int|
        0 <= k < records.len() && (#[trigger] records[k]).0 == path && tells_the_same(
            records[k].1,
            run,
        )
}

/// The record was read from one of the files.
pub open spec fn is_of_file(files: Seq<RecordFile>, record: (String, PrReviewRun)) -> bool {
    exists|i: int|
        0 <= i < files.len() && (#[trigger] files[i]).path == record.0 && files[i].run is Some
            && tells_the_same(record.1, files[i].run->0)
}

/// The two records are about the same review in the same terminal, with the paths of the
/// first in their normal spelling.
pub open spec fn tells_the_same(repaired: PrReviewRun, run: PrReviewRun) -> bool {
    &&& repaired.kind == run.kind
    &&& repaired.pr == run.pr
    &&& repaired.title == run.title
    &&& repaired.repo == run.repo
    &&& repaired.steps == run.steps
    &&& repaired.brief == run.brief
    &&& repaired.session_id == run.session_id
    &&& repaired.launch_id == run.launch_id
    &&& repaired.created_at == run.created_at
    &&& repaired.project_path@ == normalized_project(run.project_path@)
    &&& match (repaired.brief_root, run.brief_root) {
        (Some(a), Some(b)) => a@ == normalized_project(b@),
        (None, None) => true,
        _ => false,
    }
}

/// The id of a launch ends in its process, so that launches at one moment are told apart.
pub proof fn law_launches_are_told_apart(started: Moment, process_id: u32, other: u32)
    ensures
        launch_id_text(started, process_id) == launch_id_text(started, other) <==> process_id
            == other,
        ends_with(launch_id_text(started, process_id), "-"@ + decimal(process_id as nat)),
{
    let stamp = stamp_text(started.secs, started.nanos);
    let a = launch_id_text(started, process_id);
    let b = launch_id_text(started, other);
    let m = decimal(process_id as nat);
    let n = decimal(other as nat);
    assert(a.skip(a.len() - ("-"@ + m).len()) =~= "-"@ + m);
    if a == b {
        assert(m =~= a.skip((stamp + "-"@).len() as int));
        assert(n =~= b.skip((stamp + "-"@).len() as int));
        lemma_decimal_injective(process_id as nat, other as nat);
    }
}

/// A record is what has a stem before its `.json`.
pub proof fn law_what_is_a_record_name(stem: Seq<char>)
    ensures
        is_record_name(stem + ".json"@) <==> stem.len() > 0,
{
    reveal_strlit(".json");
    let name = stem + ".json"@;
    assert(name.subrange(stem.len() as int, name.len() as int) =~= ".json"@);
    assert(occurs_at(name, ".json"@, name.len() - 5));
}

} // verus!
