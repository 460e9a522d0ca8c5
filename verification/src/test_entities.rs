//! Ready-made actors for exercising the entity scheduler.
//!
//! Both carry a name and a fixed speed and always stay alive; they are the
//! simplest inhabitants of [`TimedEntity`] and what the integration tests
//! schedule.

use crate::entity_event_engine::TimedEntity;
use crate::registry::Registry;
use vstd::prelude::*;

verus! {

/// An actor with a fixed speed whose activation effect does nothing and
/// always asks to be re-admitted.
#[derive(Debug, Clone)]
pub struct TestEntity {
    /// A label for the actor.
    pub name: String,
    /// The rate reported to the scheduler.
    pub speed: u32,
}

impl TimedEntity for TestEntity {
    open spec fn rate(&self) -> u32 {
        self.speed
    }

    fn get_speed(&self) -> (r: u32) {
        self.speed
    }

    fn update(&self, game_state: &mut Registry<Self>) -> (alive: bool)
        ensures
            alive,
            *final(game_state) == *old(game_state),
    {
        true
    }
}

/// A second fixed-speed actor shape, to have two distinct inhabitants of
/// the capability.
#[derive(Debug, Clone)]
pub struct TestEntity2 {
    /// A label for the actor.
    pub name: String,
    /// The rate reported to the scheduler.
    pub speed: u32,
    /// An extra payload the scheduler never looks at.
    pub whatever: u32,
}

impl TimedEntity for TestEntity2 {
    open spec fn rate(&self) -> u32 {
        self.speed
    }

    fn get_speed(&self) -> (r: u32) {
        self.speed
    }

    fn update(&self, game_state: &mut Registry<Self>) -> (alive: bool)
        ensures
            alive,
            *final(game_state) == *old(game_state),
    {
        true
    }
}

/// An actor that declines re-admission on its first activation: its
/// effect always returns `false`, so the scheduler drops it.
#[derive(Debug, Clone)]
pub struct MortalEntity {
    /// The rate reported to the scheduler.
    pub speed: u32,
}

impl TimedEntity for MortalEntity {
    open spec fn rate(&self) -> u32 {
        self.speed
    }

    fn get_speed(&self) -> (r: u32) {
        self.speed
    }

    fn update(&self, game_state: &mut Registry<Self>) -> (alive: bool)
        ensures
            !alive,
            *final(game_state) == *old(game_state),
    {
        false
    }
}

} // verus!
