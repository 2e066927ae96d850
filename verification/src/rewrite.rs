//! The rewrite of a journal file that loses nothing that is appended meanwhile.
//!
//! Agents append to the file from their shells at any time. So before every attempt to
//! move the new file into place the old one is read again: what was appended is carried
//! into the new one; any other change stops the rewrite.

use vstd::prelude::*;
use vstd::utf8::{encode_utf8, valid_utf8};

verus! {

/// How often the content is worked out anew when the file changed in another way than by
/// being appended to.
pub const MAX_ATTEMPTS: u32 = 5;

/// How often a failed move is tried again.
pub const MAX_RENAME_RETRIES: u32 = 4;

/// What [`lossy_text`] makes of bytes.
pub uninterp spec fn lossy_chars(bytes: Seq<u8>) -> Seq<char>;

/// `String::from_utf8_lossy`: the text that the bytes encode, a function of the bytes.
/// Bytes that are valid UTF-8 are kept exactly; others are replaced.
#[verifier::external_body]
pub(crate) fn lossy_text(bytes: &[u8]) -> (text: String)
    ensures
        text@ == lossy_chars(bytes@),
        valid_utf8(bytes@) ==> encode_utf8(text@) == bytes@,
{
    String::from_utf8_lossy(bytes).into_owned()
}

/// How a file compares with the bytes that it was last seen with.
#[derive(Debug, Clone, Copy, PartialEq, Eq, Structural)]
pub enum Carry {
    /// It is the same.
    Unchanged,
    /// It was appended to.
    Grown,
    /// It changed in another way.
    Conflict,
}

/// How a file compares with the bytes that it was last seen with.
pub open spec fn carry_of(expected: Seq<u8>, current: Seq<u8>) -> Carry {
    if current == expected {
        Carry::Unchanged
    } else if current.len() > expected.len() && current.take(expected.len() as int) == expected {
        Carry::Grown
    } else {
        Carry::Conflict
    }
}

/// What was appended.
pub open spec fn tail_of(expected: Seq<u8>, current: Seq<u8>) -> Seq<u8> {
    current.skip(expected.len() as int)
}

/// How a file compares with the bytes that it was last seen with.
pub fn compare_bytes(expected: &Vec<u8>, current: &Vec<u8>) -> (carry: Carry)
    ensures
        carry == carry_of(expected@, current@),
{
    if current.len() < expected.len() {
        return Carry::Conflict;
    }
    let mut i: usize = 0;
    while i < expected.len()
        invariant
            i <= expected.len() <= current.len(),
            forall|j: int| 0 <= j < i ==> expected@[j] == current@[j],
        decreases expected.len() - i,
    {
        if expected[i] != current[i] {
            proof {
                assert(current@.take(expected@.len() as int)[i as int] == current@[i as int]);
            }
            return Carry::Conflict;
        }
        i = i + 1;
    }
    if current.len() == expected.len() {
        proof {
            assert(current@ =~= expected@);
        }
        Carry::Unchanged
    } else {
        proof {
            assert(current@.take(expected@.len() as int) =~= expected@);
        }
        Carry::Grown
    }
}

/// Appends the text of `bytes[from..]`.
fn append_tail(content: &mut String, bytes: &Vec<u8>, from: usize)
    requires
        from <= bytes.len(),
    ensures
        final(content)@ == old(content)@ + lossy_chars(bytes@.skip(from as int)),
        valid_utf8(bytes@.skip(from as int)) ==> encode_utf8(final(content)@) == encode_utf8(
            old(content)@,
        ) + bytes@.skip(from as int),
{
    let mut tail: Vec<u8> = Vec::new();
    let mut i: usize = from;
    while i < bytes.len()
        invariant
            from <= i <= bytes.len(),
            tail@ == bytes@.subrange(from as int, i as int),
        decreases bytes.len() - i,
    {
        tail.push(bytes[i]);
        proof {
            assert(tail@ =~= bytes@.subrange(from as int, i + 1));
        }
        i = i + 1;
    }
    proof {
        assert(tail@ =~= bytes@.skip(from as int));
    }
    let text = lossy_text(tail.as_slice());
    proof {
        lemma_encode_concat(content@, text@);
    }
    content.append(text.as_str());
}

/// Texts one after the other encode to their bytes one after the other.
pub proof fn lemma_encode_concat(a: Seq<char>, b: Seq<char>)
    ensures
        encode_utf8(a + b) == encode_utf8(a) + encode_utf8(b),
    decreases a.len(),
{
    if a.len() == 0 {
        assert(a + b =~= b);
        assert(encode_utf8(a) =~= Seq::empty());
        assert(encode_utf8(a) + encode_utf8(b) =~= encode_utf8(b));
    } else {
        assert((a + b).drop_first() =~= a.drop_first() + b);
        lemma_encode_concat(a.drop_first(), b);
        assert((a + b)[0] == a[0]);
        assert(encode_utf8(a + b) =~= encode_utf8(a) + encode_utf8(b));
    }
}

/// New content with what was appended to the old file since it was read. Nothing where
/// the file changed in another way: then the content is worked out anew.
pub fn carry_into(content: String, original: &Vec<u8>, current: &Vec<u8>) -> (carried: Option<
    String,
>)
    ensures
        match carry_of(original@, current@) {
            Carry::Unchanged => carried matches Some(c) && c@ == content@,
            Carry::Grown => {
                &&& carried matches Some(c) && c@ == content@ + lossy_chars(
                    tail_of(original@, current@),
                )
                &&& valid_utf8(tail_of(original@, current@)) ==> encode_utf8(carried->0@)
                    == encode_utf8(content@) + tail_of(original@, current@)
            },
            Carry::Conflict => carried is None,
        },
{
    match compare_bytes(original, current) {
        Carry::Unchanged => Some(content),
        Carry::Grown => {
            let mut carried = content;
            append_tail(&mut carried, current, original.len());
            Some(carried)
        },
        Carry::Conflict => None,
    }
}

/// What follows when new content was worked out and the old file was read again.
#[derive(Debug)]
pub enum AttemptStep {
    /// Rewrite the file to this, from the bytes that were just read.
    Write {
        /// The content, with what was appended meanwhile.
        content: String,
    },
    /// Read the file and work the content out anew.
    Retry,
    /// The file changed under every attempt: give up.
    GiveUp,
}

/// The attempts at working out new content.
#[derive(Debug)]
pub struct Attempts {
    made: u32,
}

impl View for Attempts {
    type V = u32;

    closed spec fn view(&self) -> u32 {
        self.made
    }
}

impl Attempts {
    /// None made yet.
    pub fn new() -> (attempts: Self)
        ensures
            attempts@ == 0,
    {
        Attempts { made: 0 }
    }

    /// An attempt worked `content` out from the bytes `original`; now the file holds
    /// `current`.
    pub fn next(
        &mut self,
        content: String,
        original: &Vec<u8>,
        current: &Vec<u8>,
    ) -> (step: AttemptStep)
        requires
            old(self)@ < MAX_ATTEMPTS,
        ensures
            final(self)@ == old(self)@ + 1,
            match carry_of(original@, current@) {
                Carry::Unchanged => step matches AttemptStep::Write { content: c } && c@
                    == content@,
                Carry::Grown => {
                    &&& step matches AttemptStep::Write { content: c } && c@ == content@
                        + lossy_chars(tail_of(original@, current@))
                    &&& valid_utf8(tail_of(original@, current@)) ==> encode_utf8(
                        step->Write_content@,
                    ) == encode_utf8(content@) + tail_of(original@, current@)
                },
                Carry::Conflict => if final(self)@ == MAX_ATTEMPTS {
                    step is GiveUp
                } else {
                    step is Retry
                },
            },
    {
        self.made = self.made + 1;
        match carry_into(content, original, current) {
            Some(content) => AttemptStep::Write { content },
            None => if self.made == MAX_ATTEMPTS {
                AttemptStep::GiveUp
            } else {
                AttemptStep::Retry
            },
        }
    }
}

/// What is to be done after the old file was read again.
#[derive(Debug, Clone, Copy, PartialEq, Eq, Structural)]
pub enum RewriteStep {
    /// Move the new file into place.
    Rename,
    /// Write the new file anew, then move it into place.
    WriteThenRename,
    /// Stop: the old file changed in another way than by being appended to.
    Stop,
}

/// The state of a rewrite.
pub ghost struct RewriteModel {
    /// The text of the new file.
    pub content: Seq<char>,
    /// The bytes of the old file when it was last seen.
    pub expected: Seq<u8>,
    /// How many moves failed.
    pub failed: u32,
}

/// A rewrite under way.
#[derive(Debug)]
pub struct Rewrite {
    content: String,
    expected: Vec<u8>,
    failed: u32,
}

impl View for Rewrite {
    type V = RewriteModel;

    closed spec fn view(&self) -> RewriteModel {
        RewriteModel { content: self.content@, expected: self.expected@, failed: self.failed }
    }
}

impl Rewrite {
    /// A rewrite of a file that was last seen with the bytes `expected`.
    pub fn new(content: String, expected: Vec<u8>) -> (rewrite: Self)
        ensures
            rewrite@ == (RewriteModel { content: content@, expected: expected@, failed: 0 }),
    {
        Rewrite { content, expected, failed: 0 }
    }

    /// The text of the new file.
    pub fn content(&self) -> (content: &str)
        ensures
            content@ == self@.content,
    {
        self.content.as_str()
    }

    /// The old file was read again, or found to be gone. What was appended to it is
    /// carried into the new one.
    pub fn recheck(&mut self, current: Option<Vec<u8>>) -> (step: RewriteStep)
        ensures
            match current {
                None => step is Rename && final(self)@ == old(self)@,
                Some(bytes) => match carry_of(old(self)@.expected, bytes@) {
                    Carry::Unchanged => step is Rename && final(self)@ == old(self)@,
                    Carry::Grown => {
                        let tail = tail_of(old(self)@.expected, bytes@);
                        &&& step is WriteThenRename
                        &&& final(self)@ == (RewriteModel {
                            content: old(self)@.content + lossy_chars(tail),
                            expected: bytes@,
                            ..old(self)@
                        })
                        &&& valid_utf8(tail) ==> encode_utf8(final(self)@.content) == encode_utf8(
                            old(self)@.content,
                        ) + tail
                    },
                    Carry::Conflict => step is Stop && final(self)@ == old(self)@,
                },
            },
    {
        match current {
            None => RewriteStep::Rename,
            Some(bytes) => match compare_bytes(&self.expected, &bytes) {
                Carry::Unchanged => RewriteStep::Rename,
                Carry::Grown => {
                    append_tail(&mut self.content, &bytes, self.expected.len());
                    self.expected = bytes;
                    RewriteStep::WriteThenRename
                },
                Carry::Conflict => RewriteStep::Stop,
            },
        }
    }

    /// A move failed. Says whether it is tried again, from the recheck on.
    pub fn rename_failed(&mut self) -> (retry: bool)
        ensures
            retry == (old(self)@.failed < MAX_RENAME_RETRIES),
            final(self)@ == (if retry {
                RewriteModel { failed: (old(self)@.failed + 1) as u32, ..old(self)@ }
            } else {
                old(self)@
            }),
    {
        if self.failed < MAX_RENAME_RETRIES {
            self.failed = self.failed + 1;
            true
        } else {
            false
        }
    }
}

/// What is appended to the old file between two looks is appended to the new one: not
/// one byte of the texts is lost or moved.
pub proof fn law_appended_texts_are_carried(
    content: Seq<char>,
    expected: Seq<u8>,
    first: Seq<char>,
    second: Seq<char>,
)
    requires
        encode_utf8(first).len() > 0,
        encode_utf8(second).len() > 0,
    ensures
        ({
            let once = expected + encode_utf8(first);
            let twice = once + encode_utf8(second);
            &&& carry_of(expected, once) is Grown
            &&& tail_of(expected, once) == encode_utf8(first)
            &&& carry_of(once, twice) is Grown
            &&& tail_of(once, twice) == encode_utf8(second)
            &&& encode_utf8(content + first + second) == encode_utf8(content) + encode_utf8(first)
                + encode_utf8(second)
        }),
{
    let once = expected + encode_utf8(first);
    let twice = once + encode_utf8(second);
    assert(once.take(expected.len() as int) =~= expected);
    assert(once.len() > expected.len());
    assert(tail_of(expected, once) =~= encode_utf8(first));
    assert(twice.take(once.len() as int) =~= once);
    assert(twice.len() > once.len());
    assert(tail_of(once, twice) =~= encode_utf8(second));
    lemma_encode_concat(content, first);
    lemma_encode_concat(content + first, second);
}

/// A file that was only ever appended to never stops a rewrite.
pub proof fn law_appending_never_conflicts(expected: Seq<u8>, more: Seq<u8>)
    ensures
        !(carry_of(expected, expected + more) is Conflict),
        tail_of(expected, expected + more) == more,
{
    let current = expected + more;
    assert(current.take(expected.len() as int) =~= expected);
    assert(tail_of(expected, current) =~= more);
    if more.len() == 0 {
        assert(current =~= expected);
    }
}

/// A file that lost or changed any byte that it was seen with stops a rewrite; one that has
/// them all is carried, and only one that is the same is unchanged.
pub proof fn law_any_other_change_conflicts(expected: Seq<u8>, current: Seq<u8>)
    ensures
        carry_of(expected, current) is Conflict <==> (current.len() < expected.len() || exists|
            i: int,
        |
            0 <= i < expected.len() && (#[trigger] expected[i]) != current[i]),
        carry_of(expected, current) is Unchanged <==> current == expected,
{
    if forall|i: int| 0 <= i < expected.len() ==> (#[trigger] expected[i]) == current[i] {
        if current.len() == expected.len() {
            assert(current =~= expected);
        } else if current.len() > expected.len() {
            assert(current.take(expected.len() as int) =~= expected);
        }
    }
    if current.len() >= expected.len() && (exists|i: int|
        0 <= i < expected.len() && (#[trigger] expected[i]) != current[i]) {
        let i = choose|i: int| 0 <= i < expected.len() && (#[trigger] expected[i]) != current[i];
        assert(current.take(expected.len() as int)[i] == current[i]);
    }
}

} // verus!
