//! The entity scheduler: recurring per-actor activation.
//!
//! Each actor reports a rate; the engine derives a cooldown from it and
//! keeps the actor on the event queue at `clock + cooldown`. Activating an
//! actor temporarily removes it from the registry, runs its effect with
//! mutable registry access, and either re-admits it (effect returned `true`)
//! or leaves it permanently removed (effect returned `false`).

use crate::queue::{min_idx, EventQueue, Pending};
use crate::registry::Registry;
use crate::time::Time;
use vstd::prelude::*;

verus! {

/// The capability an actor must offer to be scheduled.
///
/// `rate` is the specification-level rate; `get_speed` must report it.
/// Rates are unsigned, so a negative rate cannot arise. The
/// activation effect `update` is arbitrary caller logic: it may read and
/// mutate *other* actors through the registry, and returns the liveness
/// flag that decides re-admission. The actor itself is checked out of the
/// registry while `update` runs, so it cannot observe itself there.
pub trait TimedEntity: Sized {
    /// The actor's current rate.
    spec fn rate(&self) -> u32;

    /// Reports the rate the cooldown is derived from.
    fn get_speed(&self) -> (r: u32)
        ensures
            r == self.rate(),
    ;

    /// The activation effect. Must leave the registry well formed; anything
    /// else about its behaviour is the caller's business.
    fn update(&self, game_state: &mut Registry<Self>) -> (alive: bool)
        requires
            old(game_state).wf(),
        ensures
            final(game_state).wf(),
    ;
}

/// The cooldown derived from a rate: `C / (k*rate + 1)` with scale `C = 100`
/// and slope `k = 1/100`, i.e. exactly `10000 / (rate + 100)`.
///
/// It is `100` at rate `0`, strictly decreasing in the rate, and always
/// strictly positive.
pub open spec fn spec_cooldown(rate: u32) -> Time {
    Time { num: 10000, den: ((rate + 100) as i64) }
}

/// Converts a rate to the time to wait until the next activation.
pub fn speed_to_time_cooldown(rate: u32) -> (t: Time)
    ensures
        t == spec_cooldown(rate),
        t.wf(),
        0 < t.num,
{
    Time { num: 10000, den: (rate as i64) + 100 }
}

/// The cooldown at rate zero is exactly the scale `C = 100`.
pub proof fn lemma_cooldown_zero()
    ensures
        spec_cooldown(0).spec_eq_val(Time { num: 100, den: 1 }),
{
}

/// The cooldown is strictly decreasing in the rate.
pub proof fn lemma_cooldown_strictly_decreasing(r1: u32, r2: u32)
    requires
        r1 < r2,
    ensures
        spec_cooldown(r2).spec_lt(spec_cooldown(r1)),
{
}

/// A dead actor is never activated again: when the popped entry was the
/// only queue entry for its key — which holds whenever keys enter the
/// queue only through `add_entity` and re-admission — the queue that
/// `update_next` leaves behind in its `dropped` case has no entry for that
/// key. Together with the `dropped` clause of `update_next` (the key is
/// absent from the registry), nothing can schedule the actor again.
pub proof fn lemma_dropped_actor_not_pending(q: Seq<Pending<u64>>, key: u64)
    requires
        q.len() > 0,
        forall|i: int| 0 <= i < q.len() ==> (#[trigger] q[i]).due.wf(),
        q[min_idx(q)].payload == key,
        forall|j: int|
            0 <= j < q.len() && j != min_idx(q) ==> (#[trigger] q[j]).payload != key,
    ensures
        forall|j: int|
            0 <= j < q.remove(min_idx(q)).len() ==> (#[trigger] q.remove(min_idx(q))[j]).payload
                != key,
{
    crate::queue::lemma_min_idx(q);
    let i = min_idx(q);
    assert forall|j: int|
        0 <= j < q.remove(i).len() implies (#[trigger] q.remove(i)[j]).payload != key by {
        if j < i {
            assert(q.remove(i)[j] == q[j]);
        } else {
            assert(q.remove(i)[j] == q[j + 1]);
        }
    }
}

/// What a call to [`EntityEventEngine::update_next`] did.
#[derive(Clone, Copy, Debug, PartialEq, Eq, Structural)]
pub enum UpdateOutcome {
    /// The queue was empty; nothing happened.
    Idle,
    /// The actor under `key` was activated; `alive` is its liveness flag.
    Activated { key: u64, alive: bool },
}

/// A distinguishable scheduler failure.
#[derive(Clone, Copy, Debug, PartialEq, Eq, Structural)]
pub enum EngineError {
    /// `add_entity` was given a key that is already registered.
    DuplicateKey,
    /// A due time left the range representable by [`Time`].
    TimeOverflow,
    /// The queue held a key with no registered actor: the registry and the
    /// queue have desynchronized, which aborts the run.
    MissingActor,
}

/// The entity scheduler: a logical clock, the actor registry, and the
/// queue of pending activations keyed by actor.
pub struct EntityEventEngine<E: TimedEntity> {
    /// The logical clock; advanced only by `update_next`.
    pub time: Time,
    /// The actor registry; actors mutate it during activation.
    pub game_state: Registry<E>,
    /// The pending activations.
    pub entity_queue: EventQueue<u64>,
}

impl<E: TimedEntity> EntityEventEngine<E> {
    /// The logical clock.
    pub open spec fn spec_time(&self) -> Time {
        self.time
    }

    /// The pending activations, in queue order.
    pub open spec fn spec_queue(&self) -> Seq<Pending<u64>> {
        self.entity_queue@
    }

    /// The engine invariant: the clock is well formed, every pending due
    /// time is well formed and not earlier than the clock, every queued key
    /// is insertable, and the registry is well formed.
    pub open spec fn wf(self) -> bool {
        &&& self.time.wf()
        &&& self.entity_queue.wf()
        &&& forall|i: int|
            0 <= i < self.entity_queue@.len() ==> self.time.spec_le(
                (#[trigger] self.entity_queue@[i]).due,
            )
        &&& forall|i: int|
            0 <= i < self.entity_queue@.len() ==> (#[trigger] self.entity_queue@[i]).payload
                < u64::MAX
        &&& self.game_state.wf()
    }

    /// A scheduler over `game_state` with an empty queue at clock zero.
    pub fn new(game_state: Registry<E>) -> (engine: EntityEventEngine<E>)
        requires
            game_state.wf(),
        ensures
            engine.wf(),
            engine.spec_time() == (Time { num: 0, den: 1 }),
            engine.spec_queue() == Seq::<Pending<u64>>::empty(),
            engine.game_state == game_state,
    {
        EntityEventEngine { time: Time::zero(), game_state, entity_queue: EventQueue::new() }
    }

    /// The current logical time.
    pub fn time(&self) -> (t: Time)
        ensures
            t == self.spec_time(),
    {
        self.time
    }

    /// The number of pending activations.
    pub fn pending(&self) -> (n: usize)
        ensures
            n == self.spec_queue().len(),
    {
        self.entity_queue.len()
    }

    /// Registers `entity` under `key` and queues its first activation at
    /// `clock + cooldown(rate)`.
    ///
    /// Rejected with `DuplicateKey` exactly when `key` is already
    /// registered, and with `TimeOverflow` exactly when the due time leaves
    /// machine range; in both cases nothing changes.
    pub fn add_entity(&mut self, key: u64, entity: E) -> (r: Result<(), EngineError>)
        requires
            old(self).wf(),
            key < u64::MAX,
        ensures
            final(self).wf(),
            final(self).spec_time() == old(self).spec_time(),
            old(self).game_state@.contains_key(key) ==> r == Err::<(), EngineError>(
                EngineError::DuplicateKey,
            ) && *final(self) == *old(self),
            !old(self).game_state@.contains_key(key) ==> {
                let due_opt = Time::spec_checked_add(
                    old(self).spec_time(),
                    spec_cooldown(entity.rate()),
                );
                &&& (due_opt is None ==> r == Err::<(), EngineError>(EngineError::TimeOverflow)
                    && *final(self) == *old(self))
                &&& (due_opt matches Some(due) ==> {
                    &&& r == Ok::<(), EngineError>(())
                    &&& final(self).game_state@ == old(self).game_state@.insert(key, entity)
                    &&& final(self).spec_queue() == old(self).spec_queue().push(
                        Pending { payload: key, due },
                    )
                })
            },
    {
        if self.game_state.contains_key(key) {
            return Err(EngineError::DuplicateKey);
        }
        let cooldown = speed_to_time_cooldown(entity.get_speed());
        let due = match self.time.checked_add(&cooldown) {
            None => {
                return Err(EngineError::TimeOverflow);
            },
            Some(d) => d,
        };
        proof {
            crate::time::lemma_checked_add_sound(self.time, spec_cooldown(entity.rate()), due);
            crate::time::lemma_checked_add_le(self.time, spec_cooldown(entity.rate()), due);
        }
        self.game_state.insert(key, entity);
        self.entity_queue.push(key, due);
        proof {
            assert forall|i: int|
                0 <= i < self.entity_queue@.len() implies self.time.spec_le(
                (#[trigger] self.entity_queue@[i]).due,
            ) by {
                if i < self.entity_queue@.len() - 1 {
                    assert(self.entity_queue@[i] == old(self).entity_queue@[i]);
                }
            }
            assert forall|i: int|
                0 <= i < self.entity_queue@.len() implies (#[trigger] self.entity_queue@[i]).payload
                < u64::MAX by {
                if i < self.entity_queue@.len() - 1 {
                    assert(self.entity_queue@[i] == old(self).entity_queue@[i]);
                }
            }
        }
        Ok(())
    }

    /// Activates the actor with the earliest pending due time.
    ///
    /// A no-op on an empty queue. Otherwise the clock advances to the
    /// popped due time; a registry miss for the popped key is the fatal
    /// desynchronization error. The actor is checked out of the registry
    /// while its effect runs; afterwards it is re-admitted at
    /// `clock + cooldown(rate)` when the effect returned `true`, with a due
    /// time strictly later than the clock, and is left absent from both
    /// queue and registry when it returned `false`.
    pub fn update_next(&mut self) -> (r: Result<UpdateOutcome, EngineError>)
        requires
            old(self).wf(),
        ensures
            final(self).wf(),
            old(self).spec_time().spec_le(final(self).spec_time()),
            old(self).spec_queue().len() == 0 ==> r == Ok::<UpdateOutcome, EngineError>(
                UpdateOutcome::Idle,
            ) && final(self).spec_time() == old(self).spec_time() && final(self).spec_queue()
                == old(self).spec_queue() && final(self).game_state == old(self).game_state,
            old(self).spec_queue().len() > 0 ==> {
                let oldq = old(self).spec_queue();
                let i = min_idx(oldq);
                let key = oldq[i].payload;
                let due = oldq[i].due;
                let fq = final(self).spec_queue();
                let freg = final(self).game_state@;
                let miss = Err::<UpdateOutcome, EngineError>(EngineError::MissingActor);
                let over = Err::<UpdateOutcome, EngineError>(EngineError::TimeOverflow);
                let kept = Ok::<UpdateOutcome, EngineError>(
                    UpdateOutcome::Activated { key, alive: true },
                );
                let dropped = Ok::<UpdateOutcome, EngineError>(
                    UpdateOutcome::Activated { key, alive: false },
                );
                &&& final(self).spec_time() == due
                &&& (!old(self).game_state@.contains_key(key) ==> r == miss && fq == oldq.remove(i)
                    && freg == old(self).game_state@)
                &&& (old(self).game_state@.contains_key(key) ==> {
                    let entity = old(self).game_state@[key];
                    let next_due_opt = Time::spec_checked_add(due, spec_cooldown(entity.rate()));
                    &&& (next_due_opt is None ==> r == over && fq == oldq.remove(i) && freg == old(
                        self,
                    ).game_state@)
                    &&& (next_due_opt matches Some(next_due) ==> {
                        &&& (r == kept || r == dropped)
                        &&& due.spec_lt(next_due)
                        &&& (r == kept ==> fq == oldq.remove(i).push(
                            Pending { payload: key, due: next_due },
                        ) && freg.contains_key(key) && freg[key] == entity)
                        &&& (r == dropped ==> fq == oldq.remove(i) && !freg.contains_key(key))
                    })
                })
            },
    {
        proof {
            if self.entity_queue@.len() > 0 {
                crate::queue::lemma_min_idx(self.entity_queue@);
            }
        }
        let tracked_entity = match self.entity_queue.pop_min() {
            None => {
                return Ok(UpdateOutcome::Idle);
            },
            Some(p) => p,
        };
        let key = tracked_entity.payload;
        self.time = tracked_entity.due;
        proof {
            let oldq = old(self).spec_queue();
            let i = min_idx(oldq);
            assert forall|j: int|
                0 <= j < self.entity_queue@.len() implies self.time.spec_le(
                (#[trigger] self.entity_queue@[j]).due,
            ) by {
                if j < i {
                    assert(self.entity_queue@[j] == oldq[j]);
                } else {
                    assert(self.entity_queue@[j] == oldq[j + 1]);
                }
            }
            assert forall|j: int|
                0 <= j < self.entity_queue@.len() implies (#[trigger] self.entity_queue@[j]).payload
                < u64::MAX by {
                if j < i {
                    assert(self.entity_queue@[j] == oldq[j]);
                } else {
                    assert(self.entity_queue@[j] == oldq[j + 1]);
                }
            }
        }
        let entity = match self.game_state.remove(key) {
            None => {
                return Err(EngineError::MissingActor);
            },
            Some(e) => e,
        };
        let cooldown = speed_to_time_cooldown(entity.get_speed());
        let next_due = match self.time.checked_add(&cooldown) {
            None => {
                // The activation is abandoned before its effect runs, so
                // the actor goes back untouched.
                self.game_state.insert(key, entity);
                proof {
                    assert(self.game_state@ =~= old(self).game_state@);
                }
                return Err(EngineError::TimeOverflow);
            },
            Some(d) => d,
        };
        proof {
            crate::time::lemma_checked_add_sound(self.time, spec_cooldown(entity.rate()), next_due);
            crate::time::lemma_checked_add_increases(
                self.time,
                spec_cooldown(entity.rate()),
                next_due,
            );
        }
        let alive = entity.update(&mut self.game_state);
        if alive {
            self.game_state.insert(key, entity);
            self.entity_queue.push(key, next_due);
            proof {
                let oldq = old(self).spec_queue();
                let i = min_idx(oldq);
                assert forall|j: int|
                    0 <= j < self.entity_queue@.len() implies self.time.spec_le(
                    (#[trigger] self.entity_queue@[j]).due,
                ) by {
                    if j < self.entity_queue@.len() - 1 {
                        assert(self.entity_queue@[j] == oldq.remove(i)[j]);
                    }
                }
                assert forall|j: int|
                    0 <= j < self.entity_queue@.len() implies (
                    #[trigger] self.entity_queue@[j]).payload < u64::MAX by {
                    if j < self.entity_queue@.len() - 1 {
                        assert(self.entity_queue@[j] == oldq.remove(i)[j]);
                    }
                }
            }
            Ok(UpdateOutcome::Activated { key, alive: true })
        } else {
            // The effect declined re-admission: the key's slot stays
            // vacant even if the effect itself re-populated it.
            let _ = self.game_state.remove(key);
            Ok(UpdateOutcome::Activated { key, alive: false })
        }
    }

    /// Runs up to `n` activations, stopping early when the queue empties
    /// or a step fails; returns how many activations were performed.
    ///
    /// A zero budget or an empty queue does nothing and succeeds. The
    /// failures of the first activation are functions of the entry state
    /// alone, so they are promised outright: a registry miss for the
    /// minimal key is `MissingActor`, an unrepresentable re-admission time
    /// is `TimeOverflow`. With a budget of one, the result is exactly one
    /// outcome of [`EntityEventEngine::update_next`]; beyond that the
    /// caller-supplied effects decide what later steps see.
    pub fn run_steps(&mut self, n: u64) -> (r: Result<u64, EngineError>)
        requires
            old(self).wf(),
        ensures
            final(self).wf(),
            old(self).spec_time().spec_le(final(self).spec_time()),
            r matches Ok(c) ==> c <= n,
            r matches Ok(c) && c < n ==> final(self).spec_queue().len() == 0,
            n == 0 ==> r == Ok::<u64, EngineError>(0) && *final(self) == *old(self),
            old(self).spec_queue().len() == 0 ==> {
                let ft = final(self).spec_time();
                let fq = final(self).spec_queue();
                let freg = final(self).game_state;
                r == Ok::<u64, EngineError>(0) && ft == old(self).spec_time() && fq == old(
                    self,
                ).spec_queue() && freg == old(self).game_state
            },
            n >= 1 && old(self).spec_queue().len() > 0 ==> {
                let q0 = old(self).spec_queue();
                let i = min_idx(q0);
                let key = q0[i].payload;
                let due = q0[i].due;
                let ft = final(self).spec_time();
                let fq = final(self).spec_queue();
                let freg = final(self).game_state@;
                let miss = Err::<u64, EngineError>(EngineError::MissingActor);
                let over = Err::<u64, EngineError>(EngineError::TimeOverflow);
                &&& (!old(self).game_state@.contains_key(key) ==> r == miss && ft == due && fq
                    == q0.remove(i) && freg == old(self).game_state@)
                &&& (old(self).game_state@.contains_key(key) ==> {
                    let entity = old(self).game_state@[key];
                    let next_due_opt = Time::spec_checked_add(due, spec_cooldown(entity.rate()));
                    &&& (next_due_opt is None ==> r == over && ft == due && fq == q0.remove(i)
                        && freg == old(self).game_state@)
                    &&& (n == 1 ==> (next_due_opt matches Some(next_due) ==> r == Ok::<
                        u64,
                        EngineError,
                    >(1) && ft == due && (fq == q0.remove(i).push(
                        Pending { payload: key, due: next_due },
                    ) && freg.contains_key(key) && freg[key] == entity || fq == q0.remove(i)
                        && !freg.contains_key(key))))
                })
            },
    {
        if n == 0 {
            return Ok(0);
        }
        match self.update_next() {
            Err(e) => {
                return Err(e);
            },
            Ok(UpdateOutcome::Idle) => {
                return Ok(0);
            },
            Ok(UpdateOutcome::Activated { .. }) => {},
        }
        if n == 1 {
            return Ok(1);
        }
        let mut done: u64 = 1;
        while done < n
            invariant
                self.wf(),
                old(self).wf(),
                2 <= n,
                1 <= done <= n,
                old(self).spec_time().spec_le(self.spec_time()),
                old(self).spec_queue().len() > 0,
                old(self).game_state@.contains_key(
                    old(self).spec_queue()[min_idx(old(self).spec_queue())].payload,
                ),
                Time::spec_checked_add(
                    old(self).spec_queue()[min_idx(old(self).spec_queue())].due,
                    spec_cooldown(
                        old(self).game_state@[old(self).spec_queue()[min_idx(
                            old(self).spec_queue(),
                        )].payload].rate(),
                    ),
                ) is Some,
            decreases n - done,
        {
            let ghost before = self.spec_time();
            match self.update_next() {
                Err(e) => {
                    proof {
                        crate::time::lemma_le_trans(old(self).spec_time(), before, self.spec_time());
                    }
                    return Err(e);
                },
                Ok(UpdateOutcome::Idle) => {
                    return Ok(done);
                },
                Ok(UpdateOutcome::Activated { .. }) => {
                    done = done + 1;
                    proof {
                        crate::time::lemma_le_trans(old(self).spec_time(), before, self.spec_time());
                    }
                },
            }
        }
        Ok(done)
    }
}

} // verus!
