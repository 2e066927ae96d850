//! The two checks on a handoff: the file is there, and no tracked work is left
//! uncommitted.

use vstd::prelude::*;
use crate::handoff_file::opt_view;
use crate::text::{owned, to_chars};
use crate::words::{
    chars_views, copy_range, join, join_strings, lines, occurs_at, only, skip_char,
    skip_white_space, space, split_lines, strip_start, trim, trim_chars, trim_text, views,
};

verus! {

/// How many bytes a character takes in UTF-8.
pub open spec fn utf8_len(c: char) -> nat {
    let u = c as u32;
    if u < 0x80 {
        1
    } else if u < 0x800 {
        2
    } else if u < 0x1_0000 {
        3
    } else {
        4
    }
}

/// How many bytes a text takes in UTF-8.
pub open spec fn byte_len(s: Seq<char>) -> nat
    decreases s.len(),
{
    if s.len() == 0 {
        0
    } else {
        utf8_len(s[0]) + byte_len(s.drop_first())
    }
}

/// A text of three bytes or more has at least one character, and its byte length
/// is that of its first characters and the rest.
proof fn lemma_byte_len(s: Seq<char>)
    ensures
        byte_len(s) >= s.len(),
        s.len() >= 3 ==> byte_len(s) >= 3,
        s.len() == 0 ==> byte_len(s) == 0,
        s.len() == 1 ==> byte_len(s) == utf8_len(s[0]),
        s.len() == 2 ==> byte_len(s) == utf8_len(s[0]) + utf8_len(s[1]),
    decreases s.len(),
{
    if s.len() > 0 {
        let t = s.drop_first();
        lemma_byte_len(t);
        if t.len() == 1 {
            assert(t[0] == s[1]);
        }
    }
}

/// How many characters the two bytes of the status code make up.
pub open spec fn code_chars(line: Seq<char>) -> int {
    if utf8_len(line[0]) == 1 {
        2
    } else {
        1
    }
}

/// The line is too short for a status line, or its first two bytes are whole
/// characters: `git` writes two ASCII characters there.
pub open spec fn is_status_line(line: Seq<char>) -> bool {
    byte_len(line) < 3 || utf8_len(line[0]) == 2 || (utf8_len(line[0]) == 1 && utf8_len(line[1])
        == 1)
}

/// The path of a status line, without white space and quotes before it.
pub open spec fn status_path(line: Seq<char>) -> Seq<char> {
    strip_start(strip_start(line.skip(code_chars(line)), space()), only('"'))
}

/// One line of `git status --porcelain` names tracked work that is not committed:
/// it is neither untracked nor ignored, and not under `.maestro/`.
pub open spec fn blocks(line: Seq<char>) -> bool {
    &&& byte_len(line) >= 3
    &&& line.take(code_chars(line)) != "??"@
    &&& line.take(code_chars(line)) != "!!"@
    &&& !occurs_at(status_path(line), ".maestro/"@, 0)
}

/// How many bytes a character takes in UTF-8.
fn utf8_bytes(c: char) -> (n: usize)
    ensures
        n == utf8_len(c),
{
    let u: u32 = c as u32;
    if u < 0x80 {
        1
    } else if u < 0x800 {
        2
    } else if u < 0x1_0000 {
        3
    } else {
        4
    }
}

/// Whether the text is shorter than three bytes.
fn under_three_bytes(chars: &Vec<char>) -> (r: bool)
    ensures
        r == (byte_len(chars@) < 3),
{
    proof {
        lemma_byte_len(chars@);
    }
    if chars.len() >= 3 {
        false
    } else if chars.len() == 0 {
        true
    } else if chars.len() == 1 {
        utf8_bytes(chars[0]) < 3
    } else {
        utf8_bytes(chars[0]) + utf8_bytes(chars[1]) < 3
    }
}

/// Whether one line of `git status --porcelain` blocks a handoff. Untracked and
/// ignored entries never do, nor anything under `.maestro/`, where the handoff
/// file itself is; everything else is tracked work that should be committed.
pub fn porcelain_line_blocks(line: &str) -> (r: bool)
    requires
        is_status_line(line@),
    ensures
        r == blocks(line@),
{
    let chars = to_chars(line);
    line_blocks(&chars)
}

fn line_blocks(chars: &Vec<char>) -> (r: bool)
    requires
        is_status_line(chars@),
    ensures
        r == blocks(chars@),
{
    if under_three_bytes(chars) {
        return false;
    }
    proof {
        lemma_byte_len(chars@);
    }
    let code: usize = if utf8_bytes(chars[0]) == 1 {
        2
    } else {
        1
    };
    proof {
        assert(code == code_chars(chars@));
        reveal_strlit("??");
        reveal_strlit("!!");
        assert(chars@.take(code as int) == "??"@ <==> code == 2 && chars@[0] == '?' && chars@[1]
            == '?') by {
            if code == 2 && chars@[0] == '?' && chars@[1] == '?' {
                assert(chars@.take(2) =~= "??"@);
            } else if chars@.take(code as int) == "??"@ {
                assert(chars@.take(code as int).len() == 2);
                assert(chars@[0] == chars@.take(2)[0] && chars@[1] == chars@.take(2)[1]);
            }
        }
        assert(chars@.take(code as int) == "!!"@ <==> code == 2 && chars@[0] == '!' && chars@[1]
            == '!') by {
            if code == 2 && chars@[0] == '!' && chars@[1] == '!' {
                assert(chars@.take(2) =~= "!!"@);
            } else if chars@.take(code as int) == "!!"@ {
                assert(chars@.take(code as int).len() == 2);
                assert(chars@[0] == chars@.take(2)[0] && chars@[1] == chars@.take(2)[1]);
            }
        }
    }
    if code == 2 && ((chars[0] == '?' && chars[1] == '?') || (chars[0] == '!' && chars[1] == '!')) {
        return false;
    }
    let start: usize = skip_white_space(chars, code);
    let quoted = copy_range(chars, start, chars.len());
    proof {
        assert(quoted@ =~= chars@.skip(start as int));
    }
    let bare: usize = skip_char(&quoted, '"');
    let path = copy_range(&quoted, bare, quoted.len());
    proof {
        assert(path@ =~= quoted@.skip(bare as int));
    }
    let own = to_chars(".maestro/");
    !crate::words::matches_at(&path, &own, 0)
}

/// The lines that block, in order.
pub open spec fn blocking(all: Seq<Seq<char>>) -> Seq<Seq<char>> {
    all.filter(|line: Seq<char>| blocks(line))
}

/// The first five lines that block, trimmed and listed.
pub open spec fn blocking_list(all: Seq<Seq<char>>) -> Seq<char> {
    let shown = if blocking(all).len() <= 5 {
        blocking(all)
    } else {
        blocking(all).take(5)
    };
    join(shown.map_values(|line: Seq<char>| trim(line)), ", "@)
}

/// What was found of a handoff.
#[derive(Debug)]
pub enum HandoffProbe {
    /// It is not known where the session works.
    DirectoryUnknown,
    /// The file is not there.
    FileMissing,
    /// `git status` could not be run.
    GitNotRun {
        /// Why.
        error: String,
    },
    /// `git status` failed.
    GitFailed {
        /// What it wrote to its error stream.
        stderr: String,
    },
    /// What `git status --porcelain` wrote.
    GitStatus {
        /// Its output.
        stdout: String,
    },
}

impl HandoffProbe {
    /// Every line of the output is a status line.
    pub open spec fn wf(&self) -> bool {
        self matches HandoffProbe::GitStatus { stdout } ==> forall|i: int|
            0 <= i < lines(stdout@).len() ==> is_status_line(#[trigger] lines(stdout@)[i])
    }
}

/// Why a handoff is not valid, if it is not.
pub open spec fn handoff_failure(relpath: Seq<char>, probe: HandoffProbe) -> Option<Seq<char>> {
    match probe {
        HandoffProbe::DirectoryUnknown => Some("the session's working directory is unknown"@),
        HandoffProbe::FileMissing => Some("the handoff file is missing at "@ + relpath),
        HandoffProbe::GitNotRun { error } => Some(
            "could not run git status in the session working directory: "@ + error@,
        ),
        HandoffProbe::GitFailed { stderr } => Some(
            "git status failed in the session working directory: "@ + trim(stderr@),
        ),
        HandoffProbe::GitStatus { stdout } => if blocking(lines(stdout@)).len() == 0 {
            None
        } else {
            Some(
                "WIP is not committed — modified/staged tracked files remain: "@ + blocking_list(
                    lines(stdout@),
                ),
            )
        },
    }
}

/// The two checks on a handoff: the file exists, and no line of the status blocks.
/// Nothing is read into what the file says.
pub fn validate_handoff(relpath: &str, probe: &HandoffProbe) -> (outcome: Result<(), String>)
    requires
        probe.wf(),
    ensures
        match outcome {
            Ok(_) => handoff_failure(relpath@, *probe) is None,
            Err(failure) => handoff_failure(relpath@, *probe) == Some(failure@),
        },
{
    match probe {
        HandoffProbe::DirectoryUnknown => Err(owned("the session's working directory is unknown")),
        HandoffProbe::FileMissing => {
            let mut failure = owned("the handoff file is missing at ");
            failure.append(relpath);
            Err(failure)
        },
        HandoffProbe::GitNotRun { error } => {
            let mut failure = owned("could not run git status in the session working directory: ");
            failure.append(error.as_str());
            Err(failure)
        },
        HandoffProbe::GitFailed { stderr } => {
            let mut failure = owned("git status failed in the session working directory: ");
            failure.append(trim_text(stderr.as_str()).as_str());
            Err(failure)
        },
        HandoffProbe::GitStatus { stdout } => {
            let chars = to_chars(stdout.as_str());
            let all = split_lines(&chars);
            let (count, shown) = first_blocking(&all);
            if count == 0 {
                Ok(())
            } else {
                let mut failure = owned(
                    "WIP is not committed — modified/staged tracked files remain: ",
                );
                failure.append(join_strings(&shown, ", ").as_str());
                Err(failure)
            }
        },
    }
}

/// Whether any line blocks, and the first five that do, trimmed.
fn first_blocking(all: &Vec<Vec<char>>) -> (r: (usize, Vec<String>))
    requires
        forall|i: int| 0 <= i < all.len() ==> is_status_line(#[trigger] chars_views(all@)[i]),
    ensures
        (r.0 == 0) == (blocking(chars_views(all@)).len() == 0),
        join(views(r.1@), ", "@) == blocking_list(chars_views(all@)),
{
    let ghost texts = chars_views(all@);
    let ghost pick = |line: Seq<char>| blocks(line);
    let ghost trimmed = |line: Seq<char>| trim(line);
    let mut shown: Vec<String> = Vec::new();
    let mut i: usize = 0;
    proof {
        reveal(Seq::filter);
        assert(texts.take(0) =~= Seq::empty());
        assert(views(shown@) =~= texts.take(0).filter(pick).map_values(trimmed));
    }
    while i < all.len() && shown.len() < 5
        invariant
            i <= all.len(),
            texts == chars_views(all@),
            forall|i: int| 0 <= i < all.len() ==> is_status_line(#[trigger] texts[i]),
            pick == (|line: Seq<char>| blocks(line)),
            trimmed == (|line: Seq<char>| trim(line)),
            shown.len() <= 5,
            views(shown@) == texts.take(i as int).filter(pick).map_values(trimmed),
        decreases all.len() - i,
    {
        proof {
            reveal(Seq::filter);
            assert(texts.take(i + 1).drop_last() =~= texts.take(i as int));
            assert(texts.take(i + 1).last() == texts[i as int]);
            assert(texts[i as int] == all@[i as int]@);
        }
        if line_blocks(&all[i]) {
            let line = trim_chars(&all[i]);
            proof {
                let before = texts.take(i as int).filter(pick);
                assert(views(shown@.push(line)) =~= views(shown@).push(line@));
                assert(before.push(texts[i as int]).map_values(trimmed) =~= before.map_values(
                    trimmed,
                ).push(line@));
            }
            shown.push(line);
        }
        i = i + 1;
    }
    proof {
        let seen = texts.take(i as int).filter(pick);
        assert(views(shown@).len() == shown@.len());
        assert(seen.len() == shown@.len());
        lemma_filter_prefix(texts, i as int, pick);
        assert(texts.filter(pick).take(seen.len() as int) =~= seen);
        if i == all.len() {
            assert(texts.take(i as int) =~= texts);
        }
        assert(blocking(texts) == texts.filter(pick));
        let head = if blocking(texts).len() <= 5 {
            blocking(texts)
        } else {
            blocking(texts).take(5)
        };
        assert(head =~= seen);
    }
    (shown.len(), shown)
}

/// What is filtered out of a prefix is a prefix of what is filtered out.
proof fn lemma_filter_prefix(s: Seq<Seq<char>>, k: int, pick: spec_fn(Seq<char>) -> bool)
    requires
        0 <= k <= s.len(),
    ensures
        s.take(k).filter(pick).len() <= s.filter(pick).len(),
        s.filter(pick).take(s.take(k).filter(pick).len() as int) == s.take(k).filter(pick),
    decreases s.len() - k,
{
    reveal(Seq::filter);
    if k == s.len() {
        assert(s.take(k) =~= s);
        assert(s.filter(pick).take(s.filter(pick).len() as int) =~= s.filter(pick));
    } else {
        lemma_filter_prefix(s, k + 1, pick);
        let a = s.take(k).filter(pick);
        let b = s.take(k + 1).filter(pick);
        assert(s.take(k + 1).drop_last() =~= s.take(k));
        assert(b == a || b == a.push(s[k]));
        assert(s.filter(pick).take(a.len() as int) =~= b.take(a.len() as int));
        assert(b.take(a.len() as int) =~= a);
    }
}

/// The commit that `git rev-parse HEAD` wrote, where it wrote one.
pub fn wip_head_sha(stdout: &str) -> (sha: Option<String>)
    ensures
        opt_view(sha) == (if trim(stdout@).len() == 0 {
            None
        } else {
            Some(trim(stdout@))
        }),
{
    let sha = trim_text(stdout);
    if sha.as_str().is_empty() {
        None
    } else {
        Some(sha)
    }
}

} // verus!
