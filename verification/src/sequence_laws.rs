//! What holds of one instruction over any sequence of Stops and ticks.

use vstd::prelude::*;
use crate::audit::{AuditDetails, AuditRow, StuckWait};
use crate::injector::{
    expires, lemma_filter_wf, state_in, survives, ticked, typed_if_due, types_now, InjectorModel,
};
use crate::ladder::PendingKind;
use crate::pending::{elapsed_since, is_tick_row, LadderTimes, PendingModel, TickVerdict};
use crate::session::{SessionSnapshot, SupervisorState};
use crate::table::{lemma_filter_distinct, lemma_lookup, lemma_map_distinct, lemma_put, lookup, put};

verus! {

/// What happens to the injector.
pub ghost enum Step {
    /// A session ended its turn, in some state.
    Stop { session_id: u32, state: Option<SupervisorState>, now: u128 },
    /// The timeout pass and the idle pass of a tick.
    Tick { sessions: Seq<SessionSnapshot>, now: u128 },
}

impl Step {
    /// The injector afterwards.
    pub open spec fn after(self, m: InjectorModel, times: LadderTimes) -> InjectorModel {
        match self {
            Step::Stop { session_id, state, now } => InjectorModel {
                idle: m.idle.insert(session_id),
                ..m
            }.after_idle(session_id, state, now),
            Step::Tick { sessions, now } => m.after_timeouts(sessions, now, times).after_idle_pass(
                sessions,
                now,
            ),
        }
    }

    /// The instruction of the session is typed.
    pub open spec fn types(self, m: InjectorModel, times: LadderTimes, id: u32) -> bool {
        match self {
            Step::Stop { session_id, state, now } => session_id == id && m.due_on_idle(id, state),
            Step::Tick { sessions, now } => {
                let ticked = m.after_timeouts(sessions, now, times);
                lookup(ticked.pending, id) matches Some(p) && types_now(ticked.idle, sessions)(
                    (id, p),
                )
            },
        }
    }

    /// The verdict of the tick on the instruction of the session.
    pub open spec fn verdict(self, m: InjectorModel, times: LadderTimes, id: u32) -> TickVerdict {
        match (self, lookup(m.pending, id)) {
            (Step::Tick { sessions, now }, Some(p)) => if state_in(sessions, id) == Some(
                p.kind.home(),
            ) {
                p.tick_verdict(now, times)
            } else {
                TickVerdict::Keep
            },
            _ => TickVerdict::Keep,
        }
    }

    /// The session is in this state.
    pub open spec fn finds(self, id: u32, state: SupervisorState) -> bool {
        match self {
            Step::Stop { session_id, state: found, .. } => session_id == id ==> found == Some(
                state,
            ),
            Step::Tick { sessions, .. } => state_in(sessions, id) == Some(state),
        }
    }
}

/// Every step finds the session in this state.
pub open spec fn always_in(steps: Seq<Step>, id: u32, state: SupervisorState) -> bool {
    forall|i: int| 0 <= i < steps.len() ==> (#[trigger] steps[i]).finds(id, state)
}

/// The injector after all the steps.
pub open spec fn run(m: InjectorModel, steps: Seq<Step>, times: LadderTimes) -> InjectorModel
    decreases steps.len(),
{
    if steps.len() == 0 {
        m
    } else {
        steps.last().after(run(m, steps.drop_last(), times), times)
    }
}

/// How often the instruction of the session was typed.
pub open spec fn deliveries(
    m: InjectorModel,
    steps: Seq<Step>,
    times: LadderTimes,
    id: u32,
) -> nat
    decreases steps.len(),
{
    if steps.len() == 0 {
        0
    } else {
        let init = steps.drop_last();
        deliveries(m, init, times, id) + if steps.last().types(run(m, init, times), times, id) {
            1nat
        } else {
            0nat
        }
    }
}

/// How often an alert dropped the instruction of the session.
pub open spec fn last_alerts(
    m: InjectorModel,
    steps: Seq<Step>,
    times: LadderTimes,
    id: u32,
) -> nat
    decreases steps.len(),
{
    if steps.len() == 0 {
        0
    } else {
        let init = steps.drop_last();
        last_alerts(m, init, times, id) + if steps.last().verdict(
            run(m, init, times),
            times,
            id,
        ).drops() {
            1nat
        } else {
            0nat
        }
    }
}

/// How often an alert said that the instruction of the session waits too long.
pub open spec fn stuck_alerts(
    m: InjectorModel,
    steps: Seq<Step>,
    times: LadderTimes,
    id: u32,
) -> nat
    decreases steps.len(),
{
    if steps.len() == 0 {
        0
    } else {
        let init = steps.drop_last();
        stuck_alerts(m, init, times, id) + if steps.last().verdict(
            run(m, init, times),
            times,
            id,
        ) is Stuck {
            1nat
        } else {
            0nat
        }
    }
}

/// A tick came more than the acknowledgement window after the first delivery, and before
/// the second.
pub open spec fn first_ran_out(
    m: InjectorModel,
    steps: Seq<Step>,
    times: LadderTimes,
    id: u32,
) -> bool
    decreases steps.len(),
{
    if steps.len() == 0 {
        false
    } else {
        let init = steps.drop_last();
        first_ran_out(m, init, times, id) || (steps.last() matches Step::Tick { now, .. }
            && deliveries(m, init, times, id) == 1 && (lookup(
            run(m, init, times).pending,
            id,
        ) matches Some(p) && elapsed_since(now, p.injected_at->0) > times.timeout()))
    }
}

// ---------------------------------------------------------------------------
// One step
// ---------------------------------------------------------------------------

/// The instruction of a session after a step that finds it in its state.
spec fn stepped(
    p: PendingModel,
    m: InjectorModel,
    step: Step,
    times: LadderTimes,
    id: u32,
) -> Option<PendingModel> {
    match step {
        Step::Stop { session_id, state, now } => if session_id == id && m.due_on_idle(id, state) {
            Some(p.typed(now))
        } else {
            Some(p)
        },
        Step::Tick { sessions, now } => {
            let q = p.after_tick(now, times);
            if p.tick_verdict(now, times).drops() {
                None
            } else if types_now(m.idle, sessions)((id, q)) {
                Some(q.typed(now))
            } else {
                Some(q)
            }
        },
    }
}

pub(crate) proof fn lemma_timeouts(
    m: InjectorModel,
    sessions: Seq<SessionSnapshot>,
    now: u128,
    times: LadderTimes,
)
    requires
        m.wf(),
        times.fits(),
    ensures
        m.after_timeouts(sessions, now, times).wf(),
        forall|id: u32|
            #[trigger] lookup(m.after_timeouts(sessions, now, times).pending, id) == (match lookup(
                m.pending,
                id,
            ) {
                Some(p) if state_in(sessions, id) == Some(p.kind.home()) && !p.tick_verdict(
                    now,
                    times,
                ).drops() => Some(p.after_tick(now, times)),
                _ => None,
            }),
{
    let keep = survives(sessions, now, times);
    let f = ticked(now, times);
    lemma_filter_distinct(m.pending, keep);
    lemma_filter_wf(m.pending, keep);
    lemma_map_distinct(m.pending.filter(keep), f);
    let kept = m.pending.filter(keep);
    assert forall|i: int| 0 <= i < kept.map_values(f).len() implies (#[trigger] kept.map_values(
        f,
    )[i]).1.wf() by {
        assert(kept[i].1.wf());
    }
}

pub(crate) proof fn lemma_idle_pass(m: InjectorModel, sessions: Seq<SessionSnapshot>, now: u128)
    requires
        m.wf(),
    ensures
        m.after_idle_pass(sessions, now).wf(),
        forall|id: u32|
            #[trigger] lookup(m.after_idle_pass(sessions, now).pending, id) == (match lookup(
                m.pending,
                id,
            ) {
                Some(p) => Some(
                    if types_now(m.idle, sessions)((id, p)) {
                        p.typed(now)
                    } else {
                        p
                    },
                ),
                None => None,
            }),
{
    let f = typed_if_due(m.idle, sessions, now);
    lemma_map_distinct(m.pending, f);
    assert forall|i: int| 0 <= i < m.pending.map_values(f).len() implies (
    #[trigger] m.pending.map_values(f)[i]).1.wf() by {
        assert(m.pending[i].1.wf());
    }
}

proof fn lemma_step(m: InjectorModel, step: Step, times: LadderTimes, id: u32)
    requires
        m.wf(),
        times.fits(),
    ensures
        step.after(m, times).wf(),
        lookup(m.pending, id) is None ==> lookup(step.after(m, times).pending, id) is None
            && !step.types(m, times, id) && step.verdict(m, times, id) is Keep,
        lookup(m.pending, id) matches Some(p) ==> (step.finds(id, p.kind.home()) ==> lookup(
            step.after(m, times).pending,
            id,
        ) == stepped(p, m, step, times, id)),
        !step.after(m, times).idle.contains(id) || m.idle.contains(id) || (step matches
            Step::Stop { session_id, .. } && session_id == id),
{
    match step {
        Step::Stop { session_id, state, now } => {
            let noted = InjectorModel { idle: m.idle.insert(session_id), ..m };
            if noted.due_on_idle(session_id, state) {
                let p = lookup(m.pending, session_id)->0;
                lemma_lookup(m.pending, session_id);
                assert(p.wf());
                lemma_put(m.pending, session_id, p.typed(now));
                assert forall|i: int| 0 <= i < put(m.pending, session_id, p.typed(now)).len()
                    implies (#[trigger] put(m.pending, session_id, p.typed(now))[i]).1.wf() by {
                    assert(i < m.pending.len() ==> m.pending[i].1.wf());
                }
            }
        },
        Step::Tick { sessions, now } => {
            lemma_timeouts(m, sessions, now, times);
            lemma_idle_pass(m.after_timeouts(sessions, now, times), sessions, now);
        },
    }
}

// ---------------------------------------------------------------------------
// Two deliveries, one alert
// ---------------------------------------------------------------------------

/// An instruction that no reply has touched, after so many deliveries and alerts.
spec fn unanswered(
    m: InjectorModel,
    steps: Seq<Step>,
    times: LadderTimes,
    id: u32,
    kind: PendingKind,
) -> bool {
    let typed = deliveries(m, steps, times, id);
    let ran_out = first_ran_out(m, steps, times, id);
    match lookup(run(m, steps, times).pending, id) {
        Some(p) => {
            &&& p.kind == kind
            &&& !p.acked
            &&& !p.corrective
            &&& p.attempts == typed
            &&& last_alerts(m, steps, times, id) == 0
            &&& p.awaiting_retry || typed == 2 ==> ran_out
            &&& stuck_alerts(m, steps, times, id) <= typed + if p.stuck_alerted {
                1nat
            } else {
                0nat
            }
            &&& typed == 2 ==> !p.stuck_alerted
        },
        None => {
            &&& typed == 2
            &&& last_alerts(m, steps, times, id) == 1
            &&& ran_out
            &&& stuck_alerts(m, steps, times, id) <= 2
        },
    }
}

proof fn lemma_unanswered(
    m: InjectorModel,
    steps: Seq<Step>,
    times: LadderTimes,
    id: u32,
    kind: PendingKind,
)
    requires
        m.wf(),
        times.fits(),
        lookup(m.pending, id) matches Some(p) && p.kind == kind && p.attempts == 0
            && !p.stuck_alerted,
        always_in(steps, id, kind.home()),
    ensures
        run(m, steps, times).wf(),
        unanswered(m, steps, times, id, kind),
    decreases steps.len(),
{
    if steps.len() == 0 {
        lemma_lookup(m.pending, id);
    } else {
        let init = steps.drop_last();
        let step = steps.last();
        assert(always_in(init, id, kind.home())) by {
            assert forall|i: int| 0 <= i < init.len() implies (#[trigger] init[i]).finds(
                id,
                kind.home(),
            ) by {
                assert(init[i] == steps[i]);
            }
        }
        lemma_unanswered(m, init, times, id, kind);
        let before = run(m, init, times);
        assert(step.finds(id, kind.home())) by {
            assert(steps[steps.len() - 1] == step);
        }
        lemma_step(before, step, times, id);
        lemma_lookup(before.pending, id);
        if lookup(before.pending, id) is Some {
            let p = lookup(before.pending, id)->0;
            assert(p.wf());
            if let Step::Tick { sessions, now } = step {
                lemma_timeouts(before, sessions, now, times);
            }
        }
    }
}

/// An instruction that is never answered, in a session that stays where the instruction
/// belongs, is typed at most twice whatever Stops and ticks follow: the second time only
/// after a tick that came more than the acknowledgement window after the first. One alert
/// ends it, after the second delivery, and nothing is tracked from there on. Each of its
/// two waits is alerted once at most.
pub proof fn law_two_deliveries_and_one_alert(
    m: InjectorModel,
    steps: Seq<Step>,
    times: LadderTimes,
    id: u32,
)
    requires
        m.wf(),
        times.fits(),
        lookup(m.pending, id) matches Some(p) && p.attempts == 0 && !p.stuck_alerted && always_in(
            steps,
            id,
            p.kind.home(),
        ),
    ensures
        deliveries(m, steps, times, id) <= 2,
        deliveries(m, steps, times, id) == 2 ==> first_ran_out(m, steps, times, id),
        last_alerts(m, steps, times, id) <= 1,
        last_alerts(m, steps, times, id) == 1 ==> deliveries(m, steps, times, id) == 2,
        last_alerts(m, steps, times, id) == 1 <==> lookup(run(m, steps, times).pending, id) is None,
        stuck_alerts(m, steps, times, id) <= 2,
{
    lemma_unanswered(m, steps, times, id, lookup(m.pending, id)->0.kind);
    let after = run(m, steps, times);
    lemma_lookup(after.pending, id);
}

/// The alert that ends an instruction comes with the first tick that finds its second
/// delivery unanswered for longer than the acknowledgement window: it counts two
/// attempts, and the instruction is not tracked any more.
pub proof fn law_the_second_silence_is_alerted(
    m: InjectorModel,
    sessions: Seq<SessionSnapshot>,
    now: u128,
    times: LadderTimes,
    id: u32,
    row: AuditRow,
)
    requires
        m.wf(),
        times.fits(),
        lookup(m.pending, id) matches Some(p) && p.attempts == 2 && !p.acked && !p.corrective
            && state_in(sessions, id) == Some(p.kind.home()) && elapsed_since(now, p.injected_at->0)
            > times.timeout(),
    ensures
        ({
            let p = lookup(m.pending, id)->0;
            let tick = Step::Tick { sessions, now };
            &&& tick.verdict(m, times, id) is Unacknowledged
            &&& lookup(m.pending.filter(expires(sessions, now, times)), id) == Some(p)
            &&& is_tick_row(row, id, p, tick.verdict(m, times, id)) ==> row.details == (
            AuditDetails::AckTimeout { attempts: 2, instruction: p.kind, stuck: None })
            &&& lookup(tick.after(m, times).pending, id) is None
        }),
{
    let p = lookup(m.pending, id)->0;
    lemma_lookup(m.pending, id);
    assert(p.wf());
    lemma_timeouts(m, sessions, now, times);
    lemma_idle_pass(m.after_timeouts(sessions, now, times), sessions, now);
    lemma_filter_distinct(m.pending, expires(sessions, now, times));
}

// ---------------------------------------------------------------------------
// A turn that does not end
// ---------------------------------------------------------------------------

/// All the steps are ticks.
pub open spec fn only_ticks(steps: Seq<Step>) -> bool {
    forall|i: int| 0 <= i < steps.len() ==> (#[trigger] steps[i]) is Tick
}

proof fn lemma_stuck_stays(
    m: InjectorModel,
    ticks: Seq<Step>,
    times: LadderTimes,
    id: u32,
    p: PendingModel,
)
    requires
        m.wf(),
        times.fits(),
        lookup(m.pending, id) == Some(p),
        p.attempts == 0,
        p.stuck_alerted,
        !m.idle.contains(id),
        only_ticks(ticks),
        always_in(ticks, id, p.kind.home()),
    ensures
        run(m, ticks, times).wf(),
        lookup(run(m, ticks, times).pending, id) == Some(p),
        !run(m, ticks, times).idle.contains(id),
        deliveries(m, ticks, times, id) == 0,
        last_alerts(m, ticks, times, id) == 0,
        stuck_alerts(m, ticks, times, id) == 0,
    decreases ticks.len(),
{
    if ticks.len() > 0 {
        let init = ticks.drop_last();
        let step = ticks.last();
        assert forall|i: int| 0 <= i < init.len() implies (#[trigger] init[i]) is Tick
            && init[i].finds(id, p.kind.home()) by {
            assert(init[i] == ticks[i]);
        }
        lemma_stuck_stays(m, init, times, id, p);
        let before = run(m, init, times);
        assert(ticks[ticks.len() - 1] == step);
        assert(step is Tick && step.finds(id, p.kind.home()));
        lemma_lookup(before.pending, id);
        assert(p.wf());
        lemma_step(before, step, times, id);
        lemma_timeouts(before, step->Tick_sessions, step->Tick_now, times);
    }
}

/// An instruction whose session has not ended its turn for longer than a turn may take is
/// alerted once: the row counts no attempt and says that no idle signal came. Later ticks
/// raise nothing. It does not count as pending then, and yet it is still owed: the Stop
/// that comes at last types it, and it counts as pending again.
pub proof fn law_a_stuck_instruction_is_still_owed(
    m: InjectorModel,
    sessions: Seq<SessionSnapshot>,
    now: u128,
    times: LadderTimes,
    id: u32,
    row: AuditRow,
    ticks: Seq<Step>,
    at_last: u128,
)
    requires
        m.wf(),
        times.fits(),
        lookup(m.pending, id) matches Some(p) && p.attempts == 0 && !p.stuck_alerted && state_in(
            sessions,
            id,
        ) == Some(p.kind.home()) && elapsed_since(now, p.waiting_since) > times.max_turn_wait()
            && always_in(ticks, id, p.kind.home()),
        !m.idle.contains(id),
        only_ticks(ticks),
    ensures
        ({
            let p = lookup(m.pending, id)->0;
            let first = Step::Tick { sessions, now };
            let alerted = first.after(m, times);
            let later = run(alerted, ticks, times);
            let stop = Step::Stop { session_id: id, state: Some(p.kind.home()), now: at_last };
            &&& first.verdict(m, times, id) is Stuck
            &&& is_tick_row(row, id, p, first.verdict(m, times, id)) ==> row.details == (
            AuditDetails::AckTimeout {
                attempts: 0,
                instruction: p.kind,
                stuck: Some(StuckWait::NeverIdled),
            })
            &&& !alerted.pends(id)
            &&& stuck_alerts(alerted, ticks, times, id) == 0
            &&& last_alerts(alerted, ticks, times, id) == 0
            &&& deliveries(alerted, ticks, times, id) == 0
            &&& !later.pends(id)
            &&& stop.types(later, times, id)
            &&& later.typed_on_idle(id, Some(p.kind.home())) == Some(p.instruction)
            &&& stop.after(later, times).pends(id)
        }),
{
    let p = lookup(m.pending, id)->0;
    lemma_lookup(m.pending, id);
    assert(p.wf());
    let first = Step::Tick { sessions, now };
    let alerted = first.after(m, times);
    lemma_step(m, first, times, id);
    let q = p.after_tick(now, times);
    assert(lookup(alerted.pending, id) == Some(q));
    lemma_stuck_stays(alerted, ticks, times, id, q);
    let later = run(alerted, ticks, times);
    let stop = Step::Stop { session_id: id, state: Some(p.kind.home()), now: at_last };
    lemma_step(later, stop, times, id);
}

} // verus!
