//! The reactive state machine: one-shot delayed actions over a shared state.
//!
//! A trigger function maps each state to the delayed actions newly relevant
//! to it, each carrying a delay *relative to the clock*; the machine alone
//! converts those to absolute due times at admission. Stepping pops the
//! nearest-due action, advances the clock to it, transforms the state by
//! move, and admits whatever the trigger returns for the new state.
//!
//! Every step is a function of (trigger, state, clock, queue) — see
//! [`spec_step_model`] — so a run is deterministic end to end.

use crate::queue::{min_idx, EventQueue, Pending};
use crate::time::Time;
use vstd::prelude::*;

verus! {

/// A one-shot transformation of the shared state.
///
/// `spec_apply` is the transformation's meaning; `apply` must realize it.
/// Consumes itself: an action fires exactly once.
pub trait StateAction<S>: Sized {
    /// What the action does to a state.
    spec fn spec_apply(self, s: S) -> S;

    /// Applies the action, consuming it and the state.
    fn apply(self, s: S) -> (r: S)
        ensures
            r == self.spec_apply(s),
    ;
}

/// An action paired with a delay relative to "now".
pub struct DelayedAction<A> {
    /// The state transformation to run when due.
    pub action: A,
    /// How long after the current clock value the action becomes due.
    pub delay: Time,
}

impl<A> DelayedAction<A> {
    /// Pairs an action with its relative delay.
    pub fn new(action: A, delay: Time) -> (d: DelayedAction<A>)
        ensures
            d == (DelayedAction { action, delay }),
    {
        DelayedAction { action, delay }
    }
}

/// The trigger function: a pure map from a state to the delayed actions
/// newly relevant to that state.
///
/// `spec_trigger` is its meaning; `trigger` must realize it, and every
/// returned delay must be well formed and non-negative — a delayed action
/// is never due before the clock that admitted it.
pub trait TriggerFn<S, A>: Sized {
    /// The actions the trigger yields for a state.
    spec fn spec_trigger(&self, s: S) -> Seq<DelayedAction<A>>;

    /// Produces the actions for the given state.
    fn trigger(&self, s: &S) -> (v: Vec<DelayedAction<A>>)
        ensures
            v@ == self.spec_trigger(*s),
            forall|j: int|
                0 <= j < v@.len() ==> (#[trigger] v@[j]).delay.wf() && 0 <= v@[j].delay.num,
    ;
}

/// What one step of the machine did.
#[derive(Clone, Copy, Debug, PartialEq, Eq, Structural)]
pub enum StepStatus {
    /// An action was applied and everything the trigger produced was admitted.
    Progressed,
    /// The queue was empty; the machine is terminal and unchanged.
    Terminal,
    /// An action was applied, but an admitted due time would leave machine
    /// range; nothing was admitted.
    Overflow,
}

/// Why a bounded run stopped.
#[derive(Clone, Copy, Debug, PartialEq, Eq, Structural)]
pub enum RunStatus {
    /// The queue was exhausted.
    Finished,
    /// The step budget ran out first.
    OutOfFuel,
    /// A step overflowed the clock range.
    Overflow,
}

/// A delayed action made absolute against the clock `now`. The fallback
/// arm is never reached under [`spec_admissible`].
pub open spec fn shift_one<A>(d: DelayedAction<A>, now: Time) -> Pending<A> {
    Pending {
        payload: d.action,
        due: match Time::spec_checked_add(now, d.delay) {
            Some(t) => t,
            None => now,
        },
    }
}

/// All of `fired`, made absolute against the clock `now`.
pub open spec fn shifted<A>(fired: Seq<DelayedAction<A>>, now: Time) -> Seq<Pending<A>> {
    fired.map(|j: int, d: DelayedAction<A>| shift_one(d, now))
}

/// Every delay in `fired` can be added to `now` without leaving range.
pub open spec fn spec_admissible<A>(fired: Seq<DelayedAction<A>>, now: Time) -> bool {
    forall|j: int|
        0 <= j < fired.len() ==> Time::spec_checked_add(now, (#[trigger] fired[j]).delay)
            is Some
}

/// One step of the machine as a pure function of its observable parts:
/// the next `(state, clock, queue, status)`.
pub open spec fn spec_step_model<S, A: StateAction<S>, F: TriggerFn<S, A>>(
    trigger: F,
    state: S,
    time: Time,
    q: Seq<Pending<A>>,
) -> (S, Time, Seq<Pending<A>>, StepStatus) {
    if q.len() == 0 {
        (state, time, q, StepStatus::Terminal)
    } else {
        let i = min_idx(q);
        let due = q[i].due;
        let next_state = q[i].payload.spec_apply(state);
        let fired = trigger.spec_trigger(next_state);
        if spec_admissible(fired, due) {
            (next_state, due, q.remove(i) + shifted(fired, due), StepStatus::Progressed)
        } else {
            (next_state, due, q.remove(i), StepStatus::Overflow)
        }
    }
}

/// A bounded run of the machine as a pure function of its observable
/// parts: the final `(state, clock, queue)`, the number of actions
/// applied, and why the run stopped. The budget is consulted first, then
/// queue exhaustion, then one step is taken and the rest recursed.
pub open spec fn spec_run_model<S, A: StateAction<S>, F: TriggerFn<S, A>>(
    trigger: F,
    state: S,
    time: Time,
    q: Seq<Pending<A>>,
    fuel: nat,
) -> (S, Time, Seq<Pending<A>>, nat, RunStatus)
    decreases fuel,
{
    if fuel == 0 {
        (state, time, q, 0, RunStatus::OutOfFuel)
    } else if q.len() == 0 {
        (state, time, q, 0, RunStatus::Finished)
    } else {
        let stepped = spec_step_model(trigger, state, time, q);
        if stepped.3 == StepStatus::Overflow {
            (stepped.0, stepped.1, stepped.2, 1, RunStatus::Overflow)
        } else {
            let rest = spec_run_model(trigger, stepped.0, stepped.1, stepped.2, (fuel - 1) as nat);
            (rest.0, rest.1, rest.2, rest.3 + 1, rest.4)
        }
    }
}

/// Determinism of the step relation: equal observable parts step to equal
/// outcomes. Together with [`StateMachine::step`]'s contract, re-running
/// the same trigger from the same seed reproduces the identical sequence
/// of (due time, state) pairs.
pub proof fn lemma_step_deterministic<S, A: StateAction<S>, F: TriggerFn<S, A>>(
    trigger1: F,
    state1: S,
    time1: Time,
    q1: Seq<Pending<A>>,
    trigger2: F,
    state2: S,
    time2: Time,
    q2: Seq<Pending<A>>,
)
    requires
        trigger1 == trigger2,
        state1 == state2,
        time1 == time2,
        q1 == q2,
    ensures
        spec_step_model(trigger1, state1, time1, q1) == spec_step_model(
            trigger2,
            state2,
            time2,
            q2,
        ),
{
}

/// The reactive state machine: a trigger, the pending one-shot actions,
/// the shared state, and the logical clock.
pub struct StateMachine<S, A: StateAction<S>, F: TriggerFn<S, A>> {
    /// The trigger function consulted after every transition.
    pub trigger: F,
    /// Pending actions at absolute due times.
    pub queue: EventQueue<A>,
    /// The shared state, threaded linearly through the actions.
    pub state: S,
    /// The logical clock; advanced only by `step`.
    pub time: Time,
}

impl<S, A: StateAction<S>, F: TriggerFn<S, A>> StateMachine<S, A, F> {
    /// The machine invariant: the clock is well formed and no pending
    /// action is due before it.
    pub open spec fn wf(self) -> bool {
        &&& self.time.wf()
        &&& self.queue.wf()
        &&& forall|i: int|
            0 <= i < self.queue@.len() ==> self.time.spec_le(
                (#[trigger] self.queue@[i]).due,
            )
    }

    /// A machine at clock `time` over `state`, seeded with the trigger's
    /// actions for the initial state at `time + delay` each.
    ///
    /// `None` exactly when a seeded due time leaves machine range.
    pub fn new(state: S, trigger: F, time: Time) -> (r: Option<StateMachine<S, A, F>>)
        requires
            time.wf(),
        ensures
            ({
                let fired = trigger.spec_trigger(state);
                &&& (spec_admissible(fired, time) ==> (r matches Some(m) && m.state == state
                    && m.trigger == trigger && m.time == time && m.queue@ == shifted(fired, time)
                    && m.wf()))
                &&& (!spec_admissible(fired, time) ==> r is None)
            }),
    {
        let fired = trigger.trigger(&state);
        let mut machine = StateMachine { trigger, queue: EventQueue::new(), state, time };
        let ghost fired_seq = fired@;
        if machine.admit_all(fired) {
            proof {
                assert(machine.queue@ =~= shifted(fired_seq, machine.time));
            }
            Some(machine)
        } else {
            None
        }
    }

    /// Pops the nearest-due action, advances the clock to its due time,
    /// applies it to the state by move, and admits the trigger's actions
    /// for the new state at `clock + delay` each.
    ///
    /// Exactly [`spec_step_model`] of the machine's observable parts; on
    /// `Overflow` the transition still happens but nothing is admitted.
    pub fn step(self) -> (r: (StateMachine<S, A, F>, StepStatus))
        requires
            self.wf(),
        ensures
            r.0.wf(),
            r.0.trigger == self.trigger,
            (r.0.state, r.0.time, r.0.queue@, r.1) == spec_step_model(
                self.trigger,
                self.state,
                self.time,
                self.queue@,
            ),
    {
        let mut this = self;
        let ghost orig = this;
        proof {
            if this.queue@.len() > 0 {
                crate::queue::lemma_min_idx(this.queue@);
            }
        }
        let popped = match this.queue.pop_min() {
            None => {
                return (this, StepStatus::Terminal);
            },
            Some(p) => p,
        };
        this.time = popped.due;
        proof {
            let i = min_idx(orig.queue@);
            assert forall|j: int|
                0 <= j < this.queue@.len() implies this.time.spec_le(
                (#[trigger] this.queue@[j]).due,
            ) by {
                if j < i {
                    assert(this.queue@[j] == orig.queue@[j]);
                } else {
                    assert(this.queue@[j] == orig.queue@[j + 1]);
                }
            }
        }
        let current = this.state;
        this.state = popped.payload.apply(current);
        let fired = this.trigger.trigger(&this.state);
        if this.admit_all(fired) {
            (this, StepStatus::Progressed)
        } else {
            (this, StepStatus::Overflow)
        }
    }

    /// Steps until the queue is exhausted or the budget `max_steps` runs
    /// out, returning the machine, the number of actions applied, and why
    /// the run stopped.
    ///
    /// Exhaustion is not guaranteed within any budget in general — the
    /// trigger may perpetually re-arm the queue. But a trigger that yields
    /// no actions for any state drains the seeded queue in exactly one
    /// step per seeded action, and that special case is part of the
    /// contract below.
    pub fn run(self, max_steps: u64) -> (r: (StateMachine<S, A, F>, u64, RunStatus))
        requires
            self.wf(),
        ensures
            r.0.wf(),
            r.0.trigger == self.trigger,
            r.1 <= max_steps,
            self.time.spec_le(r.0.time),
            r.2 == RunStatus::Finished ==> r.0.queue@.len() == 0,
            r.2 == RunStatus::OutOfFuel ==> r.1 == max_steps,
            (forall|s: S| (#[trigger] self.trigger.spec_trigger(s)).len() == 0)
                && self.queue@.len() <= max_steps ==> r.1 == self.queue@.len()
                && r.0.queue@.len() == 0,
            (r.0.state, r.0.time, r.0.queue@, r.1 as nat, r.2) == spec_run_model(
                self.trigger,
                self.state,
                self.time,
                self.queue@,
                max_steps as nat,
            ),
    {
        let mut m = self;
        let ghost orig = m;
        let mut done: u64 = 0;
        while done < max_steps
            invariant
                m.wf(),
                orig.wf(),
                m.trigger == orig.trigger,
                orig == self,
                done <= max_steps,
                orig.time.spec_le(m.time),
                (forall|s: S| (#[trigger] orig.trigger.spec_trigger(s)).len() == 0) ==> done
                    + m.queue@.len() == orig.queue@.len(),
                ({
                    let rest = spec_run_model(
                        orig.trigger,
                        m.state,
                        m.time,
                        m.queue@,
                        (max_steps - done) as nat,
                    );
                    spec_run_model(
                        orig.trigger,
                        orig.state,
                        orig.time,
                        orig.queue@,
                        max_steps as nat,
                    ) == (rest.0, rest.1, rest.2, (rest.3 + done) as nat, rest.4)
                }),
            decreases max_steps - done,
        {
            let ghost before = m;
            proof {
                if m.queue@.len() > 0 {
                    crate::queue::lemma_min_idx(m.queue@);
                }
            }
            let (m2, st) = m.step();
            m = m2;
            proof {
                if before.queue@.len() > 0 {
                    crate::time::lemma_le_trans(orig.time, before.time, m.time);
                    if forall|s: S| (#[trigger] orig.trigger.spec_trigger(s)).len() == 0 {
                        let i = min_idx(before.queue@);
                        let ns = before.queue@[i].payload.spec_apply(before.state);
                        assert(orig.trigger.spec_trigger(ns).len() == 0);
                        assert(shifted(orig.trigger.spec_trigger(ns), before.queue@[i].due).len()
                            == 0);
                        assert(m.queue@.len() == before.queue@.len() - 1);
                    }
                }
            }
            match st {
                StepStatus::Terminal => {
                    return (m, done, RunStatus::Finished);
                },
                StepStatus::Overflow => {
                    done = done + 1;
                    return (m, done, RunStatus::Overflow);
                },
                StepStatus::Progressed => {
                    done = done + 1;
                },
            }
        }
        (m, done, RunStatus::OutOfFuel)
    }

    /// Admits every action in `fired` at `clock + delay`, all or nothing:
    /// returns `false`, admitting none, when any due time would leave
    /// machine range.
    fn admit_all(&mut self, fired: Vec<DelayedAction<A>>) -> (ok: bool)
        requires
            old(self).wf(),
            forall|j: int|
                0 <= j < fired@.len() ==> (#[trigger] fired@[j]).delay.wf() && 0
                    <= fired@[j].delay.num,
        ensures
            final(self).wf(),
            final(self).time == old(self).time,
            final(self).state == old(self).state,
            final(self).trigger == old(self).trigger,
            ok == spec_admissible(fired@, old(self).time),
            ok ==> final(self).queue@ == old(self).queue@ + shifted(fired@, old(self).time),
            !ok ==> final(self).queue@ == old(self).queue@,
    {
        let ghost fired_seq = fired@;
        let ghost now = self.time;
        let mut staged: Vec<Pending<A>> = Vec::new();
        let mut rest = fired;
        while rest.len() > 0
            invariant
                self.wf(),
                *self == *old(self),
                now == self.time,
                fired_seq == fired@,
                forall|j: int|
                    0 <= j < fired_seq.len() ==> (#[trigger] fired_seq[j]).delay.wf() && 0
                        <= fired_seq[j].delay.num,
                staged@.len() + rest@.len() == fired_seq.len(),
                rest@ == fired_seq.skip(staged@.len() as int),
                forall|j: int|
                    0 <= j < staged@.len() ==> Time::spec_checked_add(
                        now,
                        (#[trigger] fired_seq[j]).delay,
                    ) is Some,
                forall|j: int|
                    0 <= j < staged@.len() ==> #[trigger] staged@[j] == shift_one(
                        fired_seq[j],
                        now,
                    ),
                forall|j: int|
                    0 <= j < staged@.len() ==> (#[trigger] staged@[j]).due.wf()
                        && now.spec_le(staged@[j].due),
            decreases rest@.len(),
        {
            let ghost k = staged@.len() as int;
            let d = rest.remove(0);
            proof {
                assert(d == fired_seq[k]);
                assert(rest@ =~= fired_seq.skip(k + 1));
            }
            match self.time.checked_add(&d.delay) {
                None => {
                    proof {
                        assert(Time::spec_checked_add(now, fired_seq[k].delay) is None);
                        assert(!spec_admissible(fired_seq, now));
                    }
                    return false;
                },
                Some(due) => {
                    proof {
                        crate::time::lemma_checked_add_sound(now, d.delay, due);
                        crate::time::lemma_checked_add_le(now, d.delay, due);
                    }
                    staged.push(Pending { payload: d.action, due });
                },
            }
        }
        proof {
            assert(spec_admissible(fired_seq, now));
        }
        let ghost base = self.queue@;
        let ghost total = staged@;
        let mut remaining = staged;
        while remaining.len() > 0
            invariant
                self.queue.wf(),
                self.time == now,
                self.state == old(self).state,
                self.trigger == old(self).trigger,
                now.wf(),
                remaining@ == total.skip(total.len() - remaining@.len()),
                remaining@.len() <= total.len(),
                self.queue@ == base + total.take(total.len() - remaining@.len()),
                forall|j: int|
                    0 <= j < total.len() ==> (#[trigger] total[j]).due.wf() && now.spec_le(
                        total[j].due,
                    ),
                forall|i: int|
                    0 <= i < self.queue@.len() ==> now.spec_le(
                        (#[trigger] self.queue@[i]).due,
                    ),
            decreases remaining@.len(),
        {
            let ghost done = total.len() - remaining@.len();
            let p = remaining.remove(0);
            proof {
                assert(p == total[done]);
                assert(remaining@ =~= total.skip(done + 1));
            }
            self.queue.push(p.payload, p.due);
            proof {
                assert(self.queue@ =~= base + total.take(done + 1));
                assert forall|i: int|
                    0 <= i < self.queue@.len() implies now.spec_le(
                    (#[trigger] self.queue@[i]).due,
                ) by {
                    if i < self.queue@.len() - 1 {
                        assert(self.queue@[i] == (base + total.take(done))[i]);
                    }
                }
            }
        }
        proof {
            assert(total.take(total.len() as int) =~= total);
            assert forall|j: int|
                0 <= j < fired_seq.len() implies #[trigger] shifted(fired_seq, now)[j]
                == total[j] by {
            }
            assert(self.queue@ =~= base + shifted(fired_seq, now));
        }
        true
    }
}

} // verus!
