use event_engine::entity_event_engine::{
    speed_to_time_cooldown, EngineError, EntityEventEngine, UpdateOutcome,
};
use event_engine::registry::Registry;
use event_engine::test_entities::{MortalEntity, TestEntity, TestEntity2};
use event_engine::time::Time;

#[test]
fn cooldown_at_rate_zero_is_the_scale() {
    let c = speed_to_time_cooldown(0);
    assert!(c.eq_value(&Time { num: 100, den: 1 }));
}

#[test]
fn cooldown_exact_values() {
    // 10000 / (20 + 100) = 250/3, 10000 / (100 + 100) = 50.
    assert!(speed_to_time_cooldown(20).eq_value(&Time { num: 250, den: 3 }));
    assert!(speed_to_time_cooldown(100).eq_value(&Time { num: 50, den: 1 }));
}

#[test]
fn cooldown_strictly_decreasing_samples() {
    let rates = [0u32, 1, 10, 20, 100, 1000, u32::MAX];
    for w in rates.windows(2) {
        let slower = speed_to_time_cooldown(w[0]);
        let faster = speed_to_time_cooldown(w[1]);
        assert!(faster.lt(&slower));
    }
}

#[test]
fn add_entity_rejects_duplicate_key() {
    let mut engine = EntityEventEngine::new(Registry::new());
    let a = TestEntity { name: String::from("a"), speed: 20 };
    let b = TestEntity { name: String::from("b"), speed: 30 };
    assert_eq!(engine.add_entity(1, a), Ok(()));
    assert_eq!(engine.add_entity(1, b), Err(EngineError::DuplicateKey));
}

#[test]
fn add_entity_overflow_is_reported() {
    let mut engine: EntityEventEngine<TestEntity> = EntityEventEngine::new(Registry::new());
    engine.time = Time { num: i64::MAX, den: 1 };
    let a = TestEntity { name: String::from("a"), speed: 0 };
    assert_eq!(engine.add_entity(1, a), Err(EngineError::TimeOverflow));
}

#[test]
fn update_next_on_empty_queue_is_idle() {
    let mut engine: EntityEventEngine<TestEntity> = EntityEventEngine::new(Registry::new());
    assert_eq!(engine.update_next(), Ok(UpdateOutcome::Idle));
    assert!(engine.time().eq_value(&Time { num: 0, den: 1 }));
}

#[test]
fn rates_20_and_100_interleave_as_expected() {
    let mut engine = EntityEventEngine::new(Registry::new());
    let slow = TestEntity { name: String::from("slow"), speed: 20 };
    let fast = TestEntity { name: String::from("fast"), speed: 100 };
    engine.add_entity(1, slow).unwrap();
    engine.add_entity(2, fast).unwrap();

    let mut keys = Vec::new();
    let mut times = Vec::new();
    for _ in 0..4 {
        match engine.update_next().unwrap() {
            UpdateOutcome::Activated { key, alive } => {
                assert!(alive);
                keys.push(key);
                times.push(engine.time());
            }
            UpdateOutcome::Idle => panic!("queue should not be empty"),
        }
    }
    // fast at 50, slow at 250/3 ~ 83.33, fast at 100, fast again at 150.
    assert_eq!(keys, vec![2, 1, 2, 2]);
    assert!(times[0].eq_value(&Time { num: 50, den: 1 }));
    assert!(times[1].eq_value(&Time { num: 250, den: 3 }));
    assert!(times[2].eq_value(&Time { num: 100, den: 1 }));
    assert!(times[3].eq_value(&Time { num: 150, den: 1 }));
}

#[test]
fn two_entity_shapes_share_an_engine_each() {
    let mut engine = EntityEventEngine::new(Registry::new());
    let b = TestEntity2 { name: String::from("b"), speed: 100, whatever: 1 };
    engine.add_entity(7, b).unwrap();
    assert_eq!(
        engine.update_next(),
        Ok(UpdateOutcome::Activated { key: 7, alive: true })
    );
    assert!(engine.time().eq_value(&Time { num: 50, den: 1 }));
}

#[test]
fn dead_actor_is_gone_and_never_reactivated() {
    let mut engine = EntityEventEngine::new(Registry::new());
    engine.add_entity(9, MortalEntity { speed: 0 }).unwrap();
    assert_eq!(
        engine.update_next(),
        Ok(UpdateOutcome::Activated { key: 9, alive: false })
    );
    assert!(!engine.game_state.contains_key(9));
    assert!(engine.game_state.lookup(9).is_none());
    assert_eq!(engine.pending(), 0);
    assert_eq!(engine.update_next(), Ok(UpdateOutcome::Idle));
}

#[test]
fn live_actor_is_readmitted_strictly_later() {
    let mut engine = EntityEventEngine::new(Registry::new());
    engine
        .add_entity(3, TestEntity { name: String::from("a"), speed: 50 })
        .unwrap();
    engine.update_next().unwrap();
    let after_first = engine.time();
    assert_eq!(engine.pending(), 1);
    engine.update_next().unwrap();
    let after_second = engine.time();
    assert!(after_first.lt(&after_second));
}

#[test]
fn registry_desync_is_fatal() {
    let mut engine = EntityEventEngine::new(Registry::new());
    engine
        .add_entity(5, TestEntity { name: String::from("a"), speed: 0 })
        .unwrap();
    // Pull the actor out from under the queue.
    assert!(engine.game_state.remove(5).is_some());
    assert_eq!(engine.update_next(), Err(EngineError::MissingActor));
    // The clock still advanced to the popped due time.
    assert!(engine.time().eq_value(&Time { num: 100, den: 1 }));
}

#[test]
fn run_steps_counts_activations() {
    let mut engine = EntityEventEngine::new(Registry::new());
    engine
        .add_entity(1, TestEntity { name: String::from("a"), speed: 20 })
        .unwrap();
    engine
        .add_entity(2, TestEntity { name: String::from("b"), speed: 100 })
        .unwrap();
    assert_eq!(engine.run_steps(10), Ok(10));
    let mut engine2: EntityEventEngine<TestEntity> = EntityEventEngine::new(Registry::new());
    assert_eq!(engine2.run_steps(10), Ok(0));
}

#[test]
fn run_steps_zero_budget_is_a_no_op() {
    let mut engine = EntityEventEngine::new(Registry::new());
    engine
        .add_entity(1, TestEntity { name: String::from("a"), speed: 20 })
        .unwrap();
    assert_eq!(engine.run_steps(0), Ok(0));
    assert!(engine.time().eq_value(&Time { num: 0, den: 1 }));
    assert_eq!(engine.pending(), 1);
}

#[test]
fn run_steps_surfaces_a_first_step_failure() {
    let mut engine = EntityEventEngine::new(Registry::new());
    engine
        .add_entity(5, TestEntity { name: String::from("a"), speed: 0 })
        .unwrap();
    assert!(engine.game_state.remove(5).is_some());
    assert_eq!(engine.run_steps(3), Err(EngineError::MissingActor));
}

#[test]
fn run_steps_budget_one_matches_a_single_update() {
    let mut engine = EntityEventEngine::new(Registry::new());
    engine
        .add_entity(7, TestEntity { name: String::from("a"), speed: 100 })
        .unwrap();
    assert_eq!(engine.run_steps(1), Ok(1));
    assert!(engine.time().eq_value(&Time { num: 50, den: 1 }));
    assert!(engine.game_state.contains_key(7));
    assert_eq!(engine.pending(), 1);
}

#[test]
fn rerunning_the_same_rate_table_reproduces_the_activations() {
    let run_once = || {
        let mut engine = EntityEventEngine::new(Registry::new());
        engine
            .add_entity(1, TestEntity { name: String::from("a"), speed: 20 })
            .unwrap();
        engine
            .add_entity(2, TestEntity { name: String::from("b"), speed: 100 })
            .unwrap();
        engine
            .add_entity(3, TestEntity { name: String::from("c"), speed: 55 })
            .unwrap();
        let mut trace = Vec::new();
        for _ in 0..8 {
            match engine.update_next().unwrap() {
                UpdateOutcome::Activated { key, .. } => trace.push((key, engine.time())),
                UpdateOutcome::Idle => break,
            }
        }
        trace
    };
    let first = run_once();
    let second = run_once();
    assert_eq!(first.len(), 8);
    assert_eq!(first, second);
}

#[test]
fn registry_basics() {
    let mut reg: Registry<u32> = Registry::new();
    assert_eq!(reg.len(), 0);
    assert_eq!(reg.insert(4, 40), None);
    assert_eq!(reg.insert(4, 44), Some(40));
    assert_eq!(reg.lookup(4), Some(&44));
    assert!(reg.contains_key(4));
    let fresh = reg.next_fresh_key();
    assert!(!reg.contains_key(fresh));
    assert_eq!(reg.remove(4), Some(44));
    assert_eq!(reg.remove(4), None);
    assert_eq!(reg.len(), 0);
}
