//! A worked instantiation of the reactive state machine: an integer state
//! transformed by add-a-constant actions.
//!
//! [`AddDelta`] is the action; [`TableTrigger`] arms further additions for
//! a handful of states and is quiet everywhere else; [`QuietTrigger`]
//! yields nothing for any state, so a machine over it drains its seed and
//! stops.

use crate::state_machine::{DelayedAction, StateAction, TriggerFn};
use crate::time::Time;
use vstd::prelude::*;

verus! {

/// Adds a constant to the shared integer state, wrapping on overflow.
#[derive(Clone, Copy, Debug)]
pub struct AddDelta {
    /// The amount to add.
    pub delta: i64,
}

impl StateAction<i64> for AddDelta {
    open spec fn spec_apply(self, s: i64) -> i64 {
        vstd::wrapping::i64_specs::wrapping_add(s, self.delta)
    }

    fn apply(self, s: i64) -> (r: i64) {
        s.wrapping_add(self.delta)
    }
}

/// A trigger that yields no actions for any state: the machine is quiet
/// after its seed.
#[derive(Clone, Copy, Debug)]
pub struct QuietTrigger;

impl TriggerFn<i64, AddDelta> for QuietTrigger {
    open spec fn spec_trigger(&self, s: i64) -> Seq<DelayedAction<AddDelta>> {
        Seq::empty()
    }

    fn trigger(&self, s: &i64) -> (v: Vec<DelayedAction<AddDelta>>) {
        let v: Vec<DelayedAction<AddDelta>> = Vec::new();
        proof {
            assert(v@ =~= self.spec_trigger(*s));
        }
        v
    }
}

/// A trigger that arms a single addition when the state equals `from`,
/// and nothing otherwise: a machine over it fires at most once per visit
/// to `from` and stops as soon as the state moves elsewhere.
#[derive(Clone, Copy, Debug)]
pub struct SingleArmTrigger {
    /// The one state that arms an action.
    pub from: i64,
    /// The amount the armed action adds.
    pub delta: i64,
    /// The armed action's delay relative to the clock.
    pub delay: Time,
}

impl TriggerFn<i64, AddDelta> for SingleArmTrigger {
    open spec fn spec_trigger(&self, s: i64) -> Seq<DelayedAction<AddDelta>> {
        if s == self.from && self.delay.wf() && 0 <= self.delay.num {
            seq![DelayedAction { action: AddDelta { delta: self.delta }, delay: self.delay }]
        } else {
            Seq::empty()
        }
    }

    fn trigger(&self, s: &i64) -> (v: Vec<DelayedAction<AddDelta>>) {
        let mut v: Vec<DelayedAction<AddDelta>> = Vec::new();
        if *s == self.from && self.delay.den >= 1 && self.delay.num >= 0 {
            v.push(DelayedAction::new(AddDelta { delta: self.delta }, self.delay));
        }
        proof {
            assert(v@ =~= self.spec_trigger(*s));
        }
        v
    }
}

/// A small trigger table: state `3` arms `+4` after `3`, state `7` arms
/// `-1` after `13` and `+20` after `12`, state `6` arms `+9` after `1/10`,
/// state `27` arms `-21` after `4`, and every other state arms nothing.
#[derive(Clone, Copy, Debug)]
pub struct TableTrigger;

impl TriggerFn<i64, AddDelta> for TableTrigger {
    open spec fn spec_trigger(&self, s: i64) -> Seq<DelayedAction<AddDelta>> {
        if s == 3 {
            seq![
                DelayedAction { action: AddDelta { delta: 4 }, delay: Time { num: 3, den: 1 } },
            ]
        } else if s == 7 {
            seq![
                DelayedAction { action: AddDelta { delta: (-1) as i64 }, delay: Time { num: 13, den: 1 } },
                DelayedAction { action: AddDelta { delta: 20 }, delay: Time { num: 12, den: 1 } },
            ]
        } else if s == 6 {
            seq![
                DelayedAction { action: AddDelta { delta: 9 }, delay: Time { num: 1, den: 10 } },
            ]
        } else if s == 27 {
            seq![
                DelayedAction { action: AddDelta { delta: (-21) as i64 }, delay: Time { num: 4, den: 1 } },
            ]
        } else {
            Seq::empty()
        }
    }

    fn trigger(&self, s: &i64) -> (v: Vec<DelayedAction<AddDelta>>) {
        let mut v: Vec<DelayedAction<AddDelta>> = Vec::new();
        if *s == 3 {
            v.push(DelayedAction::new(AddDelta { delta: 4 }, Time { num: 3, den: 1 }));
        } else if *s == 7 {
            v.push(DelayedAction::new(AddDelta { delta: -1 }, Time { num: 13, den: 1 }));
            v.push(DelayedAction::new(AddDelta { delta: 20 }, Time { num: 12, den: 1 }));
        } else if *s == 6 {
            v.push(DelayedAction::new(AddDelta { delta: 9 }, Time { num: 1, den: 10 }));
        } else if *s == 27 {
            v.push(DelayedAction::new(AddDelta { delta: -21 }, Time { num: 4, den: 1 }));
        }
        proof {
            assert(v@ =~= self.spec_trigger(*s));
        }
        v
    }
}

} // verus!
