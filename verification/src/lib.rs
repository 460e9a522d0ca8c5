//! A discrete-event simulation scheduler.
//!
//! The core abstraction is a time-ordered queue of pending work plus a
//! monotonic logical clock. Two scheduling policies are layered on it:
//!
//! * an *entity scheduler* ([`entity_event_engine`]), where independent
//!   actors recur at a cooldown derived from a per-actor rate, and
//! * a *reactive state machine* ([`state_machine`]), where one-shot delayed
//!   actions transform a single shared state and may enqueue further actions.
//!
//! Logical time is an exact rational ([`time::Time`]), so due times compare
//! and add without rounding.

pub mod cave;
pub mod counter;
pub mod entity_event_engine;
pub mod map;
pub mod queue;
pub mod registry;
pub mod state_machine;
pub mod test_entities;
pub mod time;
