//! The values that sessions echo inside marker tags.
//!
//! Instructions name these values and the scanners expect them; both take them
//! from here. They differ by kind of instruction, by round and by generation.

use vstd::prelude::*;
use crate::decimal::{decimal, lemma_decimal, push_decimal};
use crate::text::{is_digit, lemma_single_line_concat, owned, single_line};

verus! {

/// A prefix, a number and a suffix.
pub open spec fn numbered(prefix: Seq<char>, n: u32, suffix: Seq<char>) -> Seq<char> {
    prefix + decimal(n as nat) + suffix
}

/// A prefix, a generation and the episode within it.
pub open spec fn episodic(prefix: Seq<char>, generation: u32, episode: u32) -> Seq<char> {
    prefix + decimal(generation as nat) + "-"@ + decimal(episode as nat)
}

/// What [`handoff_ack_value`] gives.
pub open spec fn handoff_ack_value_text(generation: u32) -> Seq<char> {
    "handoff gen-"@ + decimal(generation as nat)
}

/// What [`handoff_ack_retry_value`] gives.
pub open spec fn handoff_ack_retry_value_text(generation: u32) -> Seq<char> {
    numbered("handoff gen-"@, generation, " retry"@)
}

/// What [`handoff_written_value`] gives.
pub open spec fn handoff_written_value_text(generation: u32) -> Seq<char> {
    "gen-"@ + decimal(generation as nat)
}

/// What [`handoff_written_retry_value`] gives.
pub open spec fn handoff_written_retry_value_text(generation: u32) -> Seq<char> {
    numbered("gen-"@, generation, " retry"@)
}

/// What [`park_ack_value`] gives.
pub open spec fn park_ack_value_text(generation: u32) -> Seq<char> {
    "park gen-"@ + decimal(generation as nat)
}

/// What [`park_ack_retry_value`] gives.
pub open spec fn park_ack_retry_value_text(generation: u32) -> Seq<char> {
    numbered("park gen-"@, generation, " retry"@)
}

/// What [`park_written_value`] gives.
pub open spec fn park_written_value_text(generation: u32) -> Seq<char> {
    numbered("gen-"@, generation, " park"@)
}

/// What [`park_written_retry_value`] gives.
pub open spec fn park_written_retry_value_text(generation: u32) -> Seq<char> {
    numbered("gen-"@, generation, " park retry"@)
}

/// What [`soft_winddown_ack_value`] gives.
pub open spec fn soft_winddown_ack_value_text(generation: u32) -> Seq<char> {
    "winddown gen-"@ + decimal(generation as nat)
}

/// What [`winddown_allclear_ack_value`] gives.
pub open spec fn winddown_allclear_ack_value_text(generation: u32) -> Seq<char> {
    "allclear gen-"@ + decimal(generation as nat)
}

/// What [`soft_winddown_episode_ack_value`] gives.
pub open spec fn soft_winddown_episode_ack_value_text(generation: u32, episode: u32) -> Seq<char> {
    episodic("winddown gen-"@, generation, episode)
}

/// What [`winddown_allclear_episode_ack_value`] gives.
pub open spec fn winddown_allclear_episode_ack_value_text(generation: u32, episode: u32) -> Seq<
    char,
> {
    episodic("allclear gen-"@, generation, episode)
}

/// The value generation `generation` echoes to acknowledge a handoff: `handoff gen-N`.
pub fn handoff_ack_value(generation: u32) -> (value: String)
    ensures
        value@ == handoff_ack_value_text(generation),
{
    let mut value = owned("handoff gen-");
    push_decimal(&mut value, generation as u64);
    value
}

/// The acknowledgement of the corrective handoff round. It differs from the first
/// round's, so a replayed transcript cannot use up the corrective round.
pub fn handoff_ack_retry_value(generation: u32) -> (value: String)
    ensures
        value@ == handoff_ack_retry_value_text(generation),
{
    let mut value = owned("handoff gen-");
    push_decimal(&mut value, generation as u64);
    value.append(" retry");
    value
}

/// The value generation `generation` echoes once its handoff file is written: `gen-N`.
pub fn handoff_written_value(generation: u32) -> (value: String)
    ensures
        value@ == handoff_written_value_text(generation),
{
    let mut value = owned("gen-");
    push_decimal(&mut value, generation as u64);
    value
}

/// The written marker of the corrective handoff round.
pub fn handoff_written_retry_value(generation: u32) -> (value: String)
    ensures
        value@ == handoff_written_retry_value_text(generation),
{
    let mut value = owned("gen-");
    push_decimal(&mut value, generation as u64);
    value.append(" retry");
    value
}

/// The value that acknowledges a park: `park gen-N`.
pub fn park_ack_value(generation: u32) -> (value: String)
    ensures
        value@ == park_ack_value_text(generation),
{
    let mut value = owned("park gen-");
    push_decimal(&mut value, generation as u64);
    value
}

/// The acknowledgement of the corrective park round.
pub fn park_ack_retry_value(generation: u32) -> (value: String)
    ensures
        value@ == park_ack_retry_value_text(generation),
{
    let mut value = owned("park gen-");
    push_decimal(&mut value, generation as u64);
    value.append(" retry");
    value
}

/// The written marker of a park. A park shares the handoff's tag and file; the value
/// alone keeps a replayed handoff marker from standing for a park.
pub fn park_written_value(generation: u32) -> (value: String)
    ensures
        value@ == park_written_value_text(generation),
{
    let mut value = owned("gen-");
    push_decimal(&mut value, generation as u64);
    value.append(" park");
    value
}

/// The written marker of the corrective park round.
pub fn park_written_retry_value(generation: u32) -> (value: String)
    ensures
        value@ == park_written_retry_value_text(generation),
{
    let mut value = owned("gen-");
    push_decimal(&mut value, generation as u64);
    value.append(" park retry");
    value
}

/// The value that acknowledges a soft wind-down: `winddown gen-N`.
pub fn soft_winddown_ack_value(generation: u32) -> (value: String)
    ensures
        value@ == soft_winddown_ack_value_text(generation),
{
    let mut value = owned("winddown gen-");
    push_decimal(&mut value, generation as u64);
    value
}

/// The value that acknowledges the end of a wind-down: `allclear gen-N`.
pub fn winddown_allclear_ack_value(generation: u32) -> (value: String)
    ensures
        value@ == winddown_allclear_ack_value_text(generation),
{
    let mut value = owned("allclear gen-");
    push_decimal(&mut value, generation as u64);
    value
}

/// The value that acknowledges one episode of soft wind-down: `winddown gen-N-E`. A
/// session is wound down again and again; the episode tells the rounds apart.
pub fn soft_winddown_episode_ack_value(generation: u32, episode: u32) -> (value: String)
    ensures
        value@ == soft_winddown_episode_ack_value_text(generation, episode),
{
    let mut value = owned("winddown gen-");
    push_decimal(&mut value, generation as u64);
    value.append("-");
    push_decimal(&mut value, episode as u64);
    value
}

/// The value that acknowledges the end of one episode: `allclear gen-N-E`.
pub fn winddown_allclear_episode_ack_value(generation: u32, episode: u32) -> (value: String)
    ensures
        value@ == winddown_allclear_episode_ack_value_text(generation, episode),
{
    let mut value = owned("allclear gen-");
    push_decimal(&mut value, generation as u64);
    value.append("-");
    push_decimal(&mut value, episode as u64);
    value
}

/// A decimal spelling is a single line.
pub(crate) proof fn lemma_decimal_single_line(n: nat)
    ensures
        single_line(decimal(n)),
{
    lemma_decimal(n);
    assert forall|i: int| 0 <= i < decimal(n).len() implies #[trigger] decimal(n)[i] != '\n'
        && decimal(n)[i] != '\r' by {
        assert(is_digit(decimal(n)[i]));
    }
}

/// Every marker value is a single line.
pub proof fn lemma_values_single_line(generation: u32, episode: u32)
    ensures
        single_line(handoff_ack_value_text(generation)),
        single_line(handoff_ack_retry_value_text(generation)),
        single_line(handoff_written_value_text(generation)),
        single_line(handoff_written_retry_value_text(generation)),
        single_line(park_ack_value_text(generation)),
        single_line(park_ack_retry_value_text(generation)),
        single_line(park_written_value_text(generation)),
        single_line(park_written_retry_value_text(generation)),
        single_line(soft_winddown_ack_value_text(generation)),
        single_line(winddown_allclear_ack_value_text(generation)),
        single_line(soft_winddown_episode_ack_value_text(generation, episode)),
        single_line(winddown_allclear_episode_ack_value_text(generation, episode)),
{
    broadcast use lemma_single_line_concat;

    lemma_decimal_single_line(generation as nat);
    lemma_decimal_single_line(episode as nat);
    reveal_strlit("handoff gen-");
    reveal_strlit("gen-");
    reveal_strlit("park gen-");
    reveal_strlit("winddown gen-");
    reveal_strlit("allclear gen-");
    reveal_strlit(" retry");
    reveal_strlit(" park");
    reveal_strlit(" park retry");
    reveal_strlit("-");
}

} // verus!
