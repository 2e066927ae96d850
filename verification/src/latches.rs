//! The latches of the account-wide watchers, which outlive a restart.
//!
//! Both watchers fire on an edge. What has fired is kept here and written to disk
//! whenever it changes, so that a restart while a condition still holds does not
//! fire it again.

use vstd::prelude::*;

verus! {

/// The name of the file that holds the latches.
pub const LATCHES_FILE: &'static str = "latches.json";

/// Every latch.
#[derive(Debug, Clone, Copy, PartialEq, Eq, Structural)]
pub struct LatchState {
    /// The 5h usage is above the soft threshold.
    pub above_soft_5h: bool,
    /// The 5h usage is above the hard threshold.
    pub above_hard_5h: bool,
    /// The 7d usage is above the hard threshold.
    pub above_hard_7d: bool,
    /// That no window governs the allowance was reported.
    pub no_window_reported: bool,
    /// The loss of credentials was parked and alerted.
    pub gh_auth_lost: bool,
}

impl LatchState {
    /// Nothing is latched.
    pub open spec fn unlatched() -> LatchState {
        LatchState {
            above_soft_5h: false,
            above_hard_5h: false,
            above_hard_7d: false,
            no_window_reported: false,
            gh_auth_lost: false,
        }
    }

    /// With the allowance latches of `allowance`.
    pub open spec fn with_allowance(self, allowance: LatchState) -> LatchState {
        LatchState { gh_auth_lost: self.gh_auth_lost, ..allowance }
    }

    /// With this credentials latch.
    pub open spec fn with_auth(self, lost: bool) -> LatchState {
        LatchState { gh_auth_lost: lost, ..self }
    }
}

impl Default for LatchState {
    /// Nothing is latched.
    fn default() -> (state: Self)
        ensures
            state == LatchState::unlatched(),
    {
        LatchState {
            above_soft_5h: false,
            above_hard_5h: false,
            above_hard_7d: false,
            no_window_reported: false,
            gh_auth_lost: false,
        }
    }
}

/// The latches as they are now, to be mirrored on disk.
#[derive(Debug)]
pub struct LatchStore {
    state: LatchState,
}

impl View for LatchStore {
    type V = LatchState;

    closed spec fn view(&self) -> LatchState {
        self.state
    }
}

impl LatchStore {
    /// The latches that were read back. A file that is missing, unreadable or corrupt
    /// reads as nothing latched.
    pub fn new(loaded: Option<LatchState>) -> (store: Self)
        ensures
            store@ == (match loaded {
                Some(state) => state,
                None => LatchState::unlatched(),
            }),
    {
        match loaded {
            Some(state) => LatchStore { state },
            None => LatchStore { state: LatchState::default() },
        }
    }

    /// The latches as they are now.
    pub fn snapshot(&self) -> (state: LatchState)
        ensures
            state == self@,
    {
        self.state
    }

    /// Replaces the four allowance latches. Gives the record to write, where it
    /// changed.
    pub fn set_allowance(&mut self, allowance: LatchState) -> (write: Option<LatchState>)
        ensures
            final(self)@ == old(self)@.with_allowance(allowance),
            write == changed(old(self)@, final(self)@),
    {
        let next = LatchState { gh_auth_lost: self.state.gh_auth_lost, ..allowance };
        self.update(next)
    }

    /// Replaces the credentials latch. Gives the record to write, where it changed.
    pub fn set_gh_auth_lost(&mut self, lost: bool) -> (write: Option<LatchState>)
        ensures
            final(self)@ == old(self)@.with_auth(lost),
            write == changed(old(self)@, final(self)@),
    {
        let next = LatchState { gh_auth_lost: lost, ..self.state };
        self.update(next)
    }

    /// Takes the record over, and gives it where it changed.
    fn update(&mut self, next: LatchState) -> (write: Option<LatchState>)
        ensures
            final(self)@ == next,
            write == changed(old(self)@, next),
    {
        let before = self.state;
        self.state = next;
        if before == next {
            None
        } else {
            Some(next)
        }
    }
}

/// The record to write: the new one, where it is new.
pub open spec fn changed(before: LatchState, after: LatchState) -> Option<LatchState> {
    if before == after {
        None
    } else {
        Some(after)
    }
}

/// The two writers do not disturb each other: each leaves the other's latches alone,
/// and the order in which they write does not count.
pub proof fn law_writers_do_not_clobber(state: LatchState, allowance: LatchState, lost: bool)
    ensures
        state.with_allowance(allowance).gh_auth_lost == state.gh_auth_lost,
        state.with_auth(lost) == (LatchState { gh_auth_lost: lost, ..state }),
        state.with_allowance(allowance).with_auth(lost) == state.with_auth(lost).with_allowance(
            allowance,
        ),
{
}

/// Writing what is there already writes nothing.
pub proof fn law_steady_state_writes_nothing(state: LatchState)
    ensures
        changed(state, state.with_allowance(state)) is None,
        changed(state, state.with_auth(state.gh_auth_lost)) is None,
{
}

/// What was written last is what a restart starts from: reading the record back
/// gives the latches as they were.
pub proof fn law_a_restart_goes_on(before: LatchState, after: LatchState)
    ensures
        changed(before, after) matches Some(written) ==> written == after,
        changed(before, after) is None ==> before == after,
{
}

/// At first nothing is latched. A write of the allowance latches takes all four over, each
/// on its own; a write of the credentials latch takes that one.
pub proof fn law_a_write_takes_every_latch_of_its_own(
    state: LatchState,
    allowance: LatchState,
    lost: bool,
)
    ensures
        ({
            let none = LatchState::unlatched();
            &&& !none.above_soft_5h
            &&& !none.above_hard_5h
            &&& !none.above_hard_7d
            &&& !none.no_window_reported
            &&& !none.gh_auth_lost
        }),
        ({
            let after = state.with_allowance(allowance);
            &&& after.above_soft_5h == allowance.above_soft_5h
            &&& after.above_hard_5h == allowance.above_hard_5h
            &&& after.above_hard_7d == allowance.above_hard_7d
            &&& after.no_window_reported == allowance.no_window_reported
            &&& after.gh_auth_lost == state.gh_auth_lost
        }),
        ({
            let after = state.with_auth(lost);
            &&& after.above_soft_5h == state.above_soft_5h
            &&& after.above_hard_5h == state.above_hard_5h
            &&& after.above_hard_7d == state.above_hard_7d
            &&& after.no_window_reported == state.no_window_reported
            &&& after.gh_auth_lost == lost
        }),
{
}

/// A record is written exactly if one of its latches changed.
pub proof fn law_every_change_is_written(before: LatchState, after: LatchState)
    ensures
        changed(before, after) is Some <==> (before.above_soft_5h != after.above_soft_5h
            || before.above_hard_5h != after.above_hard_5h || before.above_hard_7d
            != after.above_hard_7d || before.no_window_reported != after.no_window_reported
            || before.gh_auth_lost != after.gh_auth_lost),
{
}

} // verus!
