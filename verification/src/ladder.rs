//! The ladder that one instruction climbs: typed when the session is idle,
//! acknowledged, written, validated; retried once, corrected once, then alerted.

use vstd::prelude::*;
use crate::decimal::{all_digits, decimal, lemma_decimal, lemma_decimal_injective};
use crate::handoff_file::opt_view;
use crate::marker_values::{
    handoff_ack_retry_value, handoff_ack_retry_value_text, handoff_ack_value,
    handoff_ack_value_text, handoff_written_retry_value, handoff_written_retry_value_text,
    handoff_written_value, handoff_written_value_text, park_ack_retry_value,
    park_ack_retry_value_text, park_ack_value, park_ack_value_text, park_written_retry_value,
    park_written_retry_value_text, park_written_value, park_written_value_text,
    soft_winddown_episode_ack_value, soft_winddown_episode_ack_value_text,
    winddown_allclear_episode_ack_value, winddown_allclear_episode_ack_value_text,
};
use crate::prompts::{
    allclear_brief_text, handoff_corrective_instruction, handoff_corrective_instruction_text,
    handoff_instruction_text, park_corrective_instruction, park_corrective_instruction_text,
    park_instruction_text, soft_winddown_episode_instruction, winddown_allclear_episode_instruction,
    winddown_brief_text,
};
use crate::session::SupervisorState;
use crate::text::{is_digit, owned, to_chars};
use crate::words::{copy_range, find, find_in, lemma_find, occurs_at, trim, trim_chars};

verus! {

/// The tag in which a session acknowledges an instruction.
pub const ACK_TAG: &'static str = "samurai-ack";

/// The tag in which a session says that its handoff file is written.
pub const WRITTEN_TAG: &'static str = "samurai-handoff-written";

/// How many acknowledgement windows the written marker gets: it stands for real
/// work, not for a one-line reply.
pub const WRITTEN_WINDOW_MULTIPLIER: u32 = 3;

/// How many acknowledgement windows an armed retry may wait for an idle signal.
pub const STUCK_WAIT_MULTIPLIER: u32 = 3;

/// The nanoseconds of one second.
pub const NANOS_PER_SEC: u128 = 1_000_000_000;

// ---------------------------------------------------------------------------
// Kinds of instruction
// ---------------------------------------------------------------------------

/// Which ladder a pending instruction climbs. The rungs are shared; the kind
/// selects the session's state, the marker values, the corrective text and what
/// completion means.
#[derive(Debug, Clone, Copy, PartialEq, Eq, Structural)]
pub enum PendingKind {
    /// A handoff: lives in `HandoffRequested`, completes into `HandoffWritten`.
    Handoff,
    /// A park: lives in `ParkRequested`, completes into `Parked`.
    Park,
    /// A soft wind-down: the session stays `Working`, the acknowledgement completes
    /// it.
    SoftWinddown,
    /// The end of a wind-down, likewise.
    WinddownAllClear,
}

impl PendingKind {
    /// The state that a session with such an instruction is in.
    pub open spec fn home(self) -> SupervisorState {
        match self {
            PendingKind::Handoff => SupervisorState::HandoffRequested,
            PendingKind::Park => SupervisorState::ParkRequested,
            PendingKind::SoftWinddown => SupervisorState::Working,
            PendingKind::WinddownAllClear => SupervisorState::Working,
        }
    }

    /// The acknowledgement alone completes the instruction.
    pub open spec fn ack_only(self) -> bool {
        self is SoftWinddown || self is WinddownAllClear
    }

    /// The spelling of the instruction in the trail.
    pub open spec fn name_text(self) -> Seq<char> {
        match self {
            PendingKind::Handoff => "handoff"@,
            PendingKind::Park => "park"@,
            PendingKind::SoftWinddown => "soft_winddown"@,
            PendingKind::WinddownAllClear => "winddown_allclear"@,
        }
    }

    /// The kind of alert that a used-up ladder raises.
    pub open spec fn invalid_kind_text(self) -> Seq<char> {
        match self {
            PendingKind::Handoff => "handoff_invalid"@,
            PendingKind::Park => "park_invalid"@,
            PendingKind::SoftWinddown => "soft_winddown_invalid"@,
            PendingKind::WinddownAllClear => "winddown_allclear_invalid"@,
        }
    }

    /// The state that a session with such an instruction is in.
    pub fn expected_state(self) -> (state: SupervisorState)
        ensures
            state == self.home(),
    {
        match self {
            PendingKind::Handoff => SupervisorState::HandoffRequested,
            PendingKind::Park => SupervisorState::ParkRequested,
            PendingKind::SoftWinddown => SupervisorState::Working,
            PendingKind::WinddownAllClear => SupervisorState::Working,
        }
    }

    /// Whether the acknowledgement alone completes the instruction.
    pub fn is_ack_only(self) -> (r: bool)
        ensures
            r == self.ack_only(),
    {
        matches!(self, PendingKind::SoftWinddown | PendingKind::WinddownAllClear)
    }

    /// The spelling of the instruction in the trail.
    pub fn as_str(self) -> (text: &'static str)
        ensures
            text@ == self.name_text(),
    {
        match self {
            PendingKind::Handoff => "handoff",
            PendingKind::Park => "park",
            PendingKind::SoftWinddown => "soft_winddown",
            PendingKind::WinddownAllClear => "winddown_allclear",
        }
    }

    /// The kind of alert that a used-up ladder raises.
    pub fn invalid_kind(self) -> (text: &'static str)
        ensures
            text@ == self.invalid_kind_text(),
    {
        match self {
            PendingKind::Handoff => "handoff_invalid",
            PendingKind::Park => "park_invalid",
            PendingKind::SoftWinddown => "soft_winddown_invalid",
            PendingKind::WinddownAllClear => "winddown_allclear_invalid",
        }
    }
}

/// The acknowledgement that an instruction of this kind and round expects.
pub open spec fn expected_ack_text(
    kind: PendingKind,
    generation: u32,
    corrective: bool,
    episode: u32,
) -> Seq<char> {
    match kind {
        PendingKind::Handoff => if corrective {
            handoff_ack_retry_value_text(generation)
        } else {
            handoff_ack_value_text(generation)
        },
        PendingKind::Park => if corrective {
            park_ack_retry_value_text(generation)
        } else {
            park_ack_value_text(generation)
        },
        PendingKind::SoftWinddown => soft_winddown_episode_ack_value_text(generation, episode),
        PendingKind::WinddownAllClear => winddown_allclear_episode_ack_value_text(
            generation,
            episode,
        ),
    }
}

/// The written marker that an instruction of this kind and round expects.
pub open spec fn expected_written_text(
    kind: PendingKind,
    generation: u32,
    corrective: bool,
) -> Option<Seq<char>> {
    match kind {
        PendingKind::Handoff => Some(
            if corrective {
                handoff_written_retry_value_text(generation)
            } else {
                handoff_written_value_text(generation)
            },
        ),
        PendingKind::Park => Some(
            if corrective {
                park_written_retry_value_text(generation)
            } else {
                park_written_value_text(generation)
            },
        ),
        _ => None,
    }
}

/// The text of the corrective round of an instruction.
pub open spec fn corrective_text(
    kind: PendingKind,
    epic: Seq<char>,
    generation: u32,
    failure: Seq<char>,
    episode: u32,
) -> Seq<char> {
    match kind {
        PendingKind::Handoff => handoff_corrective_instruction_text(epic, generation, failure),
        PendingKind::Park => park_corrective_instruction_text(epic, generation, failure),
        PendingKind::SoftWinddown => winddown_brief_text(
            soft_winddown_episode_ack_value_text(generation, episode),
        ),
        PendingKind::WinddownAllClear => allclear_brief_text(
            winddown_allclear_episode_ack_value_text(generation, episode),
        ),
    }
}

/// The text of an instruction in one of its rounds.
pub open spec fn brief_text(
    kind: PendingKind,
    epic: Seq<char>,
    generation: u32,
    corrective: bool,
    failure: Seq<char>,
    episode: u32,
) -> Seq<char> {
    if corrective {
        corrective_text(kind, epic, generation, failure, episode)
    } else {
        match kind {
            PendingKind::Handoff => handoff_instruction_text(epic, generation),
            PendingKind::Park => park_instruction_text(epic, generation),
            PendingKind::SoftWinddown => winddown_brief_text(
                soft_winddown_episode_ack_value_text(generation, episode),
            ),
            PendingKind::WinddownAllClear => allclear_brief_text(
                winddown_allclear_episode_ack_value_text(generation, episode),
            ),
        }
    }
}

/// The acknowledgement that an instruction of this kind and round expects. The
/// episode counts for the two ack-only kinds, which a generation may get again and
/// again.
pub fn expected_ack_value(
    kind: PendingKind,
    generation: u32,
    corrective: bool,
    episode: u32,
) -> (value: String)
    ensures
        value@ == expected_ack_text(kind, generation, corrective, episode),
{
    match kind {
        PendingKind::Handoff => if corrective {
            handoff_ack_retry_value(generation)
        } else {
            handoff_ack_value(generation)
        },
        PendingKind::Park => if corrective {
            park_ack_retry_value(generation)
        } else {
            park_ack_value(generation)
        },
        PendingKind::SoftWinddown => soft_winddown_episode_ack_value(generation, episode),
        PendingKind::WinddownAllClear => winddown_allclear_episode_ack_value(generation, episode),
    }
}

/// The written marker that an instruction of this kind and round expects; the
/// ack-only kinds have no written stage.
pub fn expected_written_value(
    kind: PendingKind,
    generation: u32,
    corrective: bool,
) -> (value: Option<String>)
    ensures
        opt_view(value) == expected_written_text(kind, generation, corrective),
{
    match kind {
        PendingKind::Handoff => if corrective {
            Some(handoff_written_retry_value(generation))
        } else {
            Some(handoff_written_value(generation))
        },
        PendingKind::Park => if corrective {
            Some(park_written_retry_value(generation))
        } else {
            Some(park_written_value(generation))
        },
        _ => None,
    }
}

/// The text of the corrective round of an instruction.
pub fn corrective_instruction_for(
    kind: PendingKind,
    epic: &str,
    generation: u32,
    failure: &str,
    episode: u32,
) -> (text: String)
    ensures
        text@ == corrective_text(kind, epic@, generation, failure@, episode),
{
    match kind {
        PendingKind::Handoff => handoff_corrective_instruction(epic, generation, failure),
        PendingKind::Park => park_corrective_instruction(epic, generation, failure),
        PendingKind::SoftWinddown => soft_winddown_episode_instruction(generation, episode),
        PendingKind::WinddownAllClear => winddown_allclear_episode_instruction(generation, episode),
    }
}

// ---------------------------------------------------------------------------
// No marker stands for another
// ---------------------------------------------------------------------------

/// The text is empty or starts with something that is no digit.
spec fn stops_digits(s: Seq<char>) -> bool {
    s.len() == 0 || !is_digit(s[0])
}

/// Digits followed by something else are read in one way only.
proof fn lemma_digits_split(a: Seq<char>, x: Seq<char>, b: Seq<char>, y: Seq<char>)
    requires
        a + x == b + y,
        all_digits(a),
        all_digits(b),
        stops_digits(x),
        stops_digits(y),
    ensures
        a == b,
        x == y,
{
    let s = a + x;
    if a.len() < b.len() {
        assert(s[a.len() as int] == x[0]);
        assert((b + y)[a.len() as int] == b[a.len() as int]);
        assert(is_digit(b[a.len() as int]));
    } else if b.len() < a.len() {
        assert((b + y)[b.len() as int] == y[0]);
        assert(s[b.len() as int] == a[b.len() as int]);
        assert(is_digit(a[b.len() as int]));
    }
    assert(a =~= s.take(a.len() as int));
    assert(b =~= (b + y).take(b.len() as int));
    assert(x =~= s.skip(a.len() as int));
    assert(y =~= (b + y).skip(b.len() as int));
}

/// A prefix and a number followed by no digit are read in one way only.
proof fn lemma_numbered_split(prefix: Seq<char>, g: u32, x: Seq<char>, h: u32, y: Seq<char>)
    requires
        prefix + decimal(g as nat) + x == prefix + decimal(h as nat) + y,
        stops_digits(x),
        stops_digits(y),
    ensures
        g == h,
        x == y,
{
    let a = decimal(g as nat);
    let b = decimal(h as nat);
    lemma_decimal(g as nat);
    lemma_decimal(h as nat);
    let s = prefix + a + x;
    let t = prefix + b + y;
    assert(s.skip(prefix.len() as int) =~= a + x);
    assert(t.skip(prefix.len() as int) =~= b + y);
    lemma_digits_split(a, x, b, y);
    lemma_decimal_injective(g as nat, h as nat);
}

/// The part of an acknowledgement behind its generation.
spec fn ack_suffix(kind: PendingKind, corrective: bool, episode: u32) -> Seq<char> {
    if kind.ack_only() {
        "-"@ + decimal(episode as nat)
    } else if corrective {
        " retry"@
    } else {
        Seq::empty()
    }
}

/// The part of an acknowledgement before its generation.
spec fn ack_prefix(kind: PendingKind) -> Seq<char> {
    match kind {
        PendingKind::Handoff => "handoff gen-"@,
        PendingKind::Park => "park gen-"@,
        PendingKind::SoftWinddown => "winddown gen-"@,
        PendingKind::WinddownAllClear => "allclear gen-"@,
    }
}

proof fn lemma_ack_shape(kind: PendingKind, generation: u32, corrective: bool, episode: u32)
    ensures
        expected_ack_text(kind, generation, corrective, episode) == ack_prefix(kind) + decimal(
            generation as nat,
        ) + ack_suffix(kind, corrective, episode),
        stops_digits(ack_suffix(kind, corrective, episode)),
{
    reveal_strlit("-");
    reveal_strlit(" retry");
    let lhs = expected_ack_text(kind, generation, corrective, episode);
    let rhs = ack_prefix(kind) + decimal(generation as nat) + ack_suffix(kind, corrective, episode);
    assert(lhs =~= rhs);
}

/// An acknowledgement fits one instruction only: another kind, another generation,
/// another round or another episode expects another value. So a replayed marker
/// never acknowledges anything but what it was written for.
pub proof fn law_ack_values_distinct(
    kind: PendingKind,
    generation: u32,
    corrective: bool,
    episode: u32,
    other_kind: PendingKind,
    other_generation: u32,
    other_corrective: bool,
    other_episode: u32,
)
    requires
        expected_ack_text(kind, generation, corrective, episode) == expected_ack_text(
            other_kind,
            other_generation,
            other_corrective,
            other_episode,
        ),
    ensures
        kind == other_kind,
        generation == other_generation,
        !kind.ack_only() ==> corrective == other_corrective,
        kind.ack_only() ==> episode == other_episode,
{
    let x = ack_suffix(kind, corrective, episode);
    let y = ack_suffix(other_kind, other_corrective, other_episode);
    let s = expected_ack_text(kind, generation, corrective, episode);
    lemma_ack_shape(kind, generation, corrective, episode);
    lemma_ack_shape(other_kind, other_generation, other_corrective, other_episode);
    assert(kind == other_kind) by {
        reveal_strlit("handoff gen-");
        reveal_strlit("park gen-");
        reveal_strlit("winddown gen-");
        reveal_strlit("allclear gen-");
        assert(s[0] == ack_prefix(kind)[0]);
        assert(s[0] == ack_prefix(other_kind)[0]);
    }
    lemma_numbered_split(ack_prefix(kind), generation, x, other_generation, y);
    if kind.ack_only() {
        reveal_strlit("-");
        assert(x.skip(1) =~= decimal(episode as nat));
        assert(y.skip(1) =~= decimal(other_episode as nat));
        lemma_decimal_injective(episode as nat, other_episode as nat);
    } else {
        reveal_strlit(" retry");
    }
}

spec fn written_suffix(kind: PendingKind, corrective: bool) -> Seq<char> {
    match kind {
        PendingKind::Handoff => if corrective {
            " retry"@
        } else {
            Seq::empty()
        },
        _ => if corrective {
            " park retry"@
        } else {
            " park"@
        },
    }
}

/// A written marker fits one instruction only: a handoff's never stands for a
/// park, nor one generation's or round's for another's.
pub proof fn law_written_values_distinct(
    kind: PendingKind,
    generation: u32,
    corrective: bool,
    other_kind: PendingKind,
    other_generation: u32,
    other_corrective: bool,
)
    requires
        !kind.ack_only(),
        expected_written_text(kind, generation, corrective) == expected_written_text(
            other_kind,
            other_generation,
            other_corrective,
        ),
    ensures
        kind == other_kind,
        generation == other_generation,
        corrective == other_corrective,
{
    let x = written_suffix(kind, corrective);
    let y = written_suffix(other_kind, other_corrective);
    reveal_strlit(" retry");
    reveal_strlit(" park");
    reveal_strlit(" park retry");
    let s = expected_written_text(kind, generation, corrective)->0;
    assert(!other_kind.ack_only());
    assert(s =~= "gen-"@ + decimal(generation as nat) + x);
    assert(s =~= "gen-"@ + decimal(other_generation as nat) + y);
    lemma_numbered_split("gen-"@, generation, x, other_generation, y);
    assert(x.len() == y.len());
}

// ---------------------------------------------------------------------------
// Markers in replies
// ---------------------------------------------------------------------------

/// The opening tag.
pub open spec fn open_tag(tag: Seq<char>) -> Seq<char> {
    "<"@ + tag + ">"@
}

/// The closing tag.
pub open spec fn close_tag(tag: Seq<char>) -> Seq<char> {
    "</"@ + tag + ">"@
}

/// The trimmed text between the first opening tag and the first closing tag that
/// follows it.
pub open spec fn tag_value(text: Seq<char>, tag: Seq<char>) -> Option<Seq<char>> {
    match find(text, open_tag(tag), 0) {
        None => None,
        Some(at) => {
            let start = at + open_tag(tag).len();
            match find(text, close_tag(tag), start) {
                None => None,
                Some(end) => Some(trim(text.subrange(start, end))),
            }
        },
    }
}

/// The text inside the first `<tag>…</tag>` of a reply, trimmed.
pub fn marker_value(text: &str, tag: &str) -> (value: Option<String>)
    ensures
        opt_view(value) == tag_value(text@, tag@),
{
    let mut open = owned("<");
    open.append(tag);
    open.append(">");
    let mut close = owned("</");
    close.append(tag);
    close.append(">");
    let chars = to_chars(text);
    let opening = to_chars(open.as_str());
    let closing = to_chars(close.as_str());
    proof {
        lemma_find(text@, open_tag(tag@), 0);
    }
    match find_in(&chars, &opening, 0) {
        None => None,
        Some(at) => {
            proof {
                assert(occurs_at(chars@, opening@, at as int));
                assert(chars.len() == chars@.len());
            }
            let start: usize = at + opening.len();
            proof {
                lemma_find(text@, close_tag(tag@), start as int);
            }
            match find_in(&chars, &closing, start) {
                None => None,
                Some(end) => {
                    let inner = copy_range(&chars, start, end);
                    Some(trim_chars(&inner))
                },
            }
        },
    }
}

/// The acknowledgement that a reply carries.
pub fn ack_value(text: &str) -> (value: Option<String>)
    ensures
        opt_view(value) == tag_value(text@, ACK_TAG@),
{
    marker_value(text, ACK_TAG)
}

/// The written marker that a reply carries.
pub fn written_value(text: &str) -> (value: Option<String>)
    ensures
        opt_view(value) == tag_value(text@, WRITTEN_TAG@),
{
    marker_value(text, WRITTEN_TAG)
}

} // verus!
