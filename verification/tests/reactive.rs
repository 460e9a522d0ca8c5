use event_engine::counter::{QuietTrigger, SingleArmTrigger, TableTrigger};
use event_engine::state_machine::{RunStatus, StateMachine, StepStatus};
use event_engine::time::Time;

#[test]
fn quiet_trigger_machine_is_born_terminal() {
    let m = StateMachine::new(0i64, QuietTrigger, Time::from_int(0)).unwrap();
    assert_eq!(m.queue.len(), 0);
    let (m, steps, status) = m.run(10);
    assert_eq!(steps, 0);
    assert_eq!(status, RunStatus::Finished);
    assert_eq!(m.state, 0);
}

#[test]
fn single_shot_fires_at_seed_time_plus_delay_then_stops() {
    let trigger = SingleArmTrigger { from: 3, delta: 4, delay: Time::from_int(3) };
    let t0 = Time::from_int(5);
    let m = StateMachine::new(3i64, trigger, t0).unwrap();
    assert_eq!(m.queue.len(), 1);

    let (m, status) = m.step();
    assert_eq!(status, StepStatus::Progressed);
    assert_eq!(m.state, 7);
    assert!(m.time.eq_value(&Time { num: 8, den: 1 }));

    let (m, status) = m.step();
    assert_eq!(status, StepStatus::Terminal);
    assert_eq!(m.state, 7);
}

#[test]
fn single_shot_run_drains_seed_in_one_step() {
    let trigger = SingleArmTrigger { from: 3, delta: 4, delay: Time::from_int(3) };
    let m = StateMachine::new(3i64, trigger, Time::from_int(0)).unwrap();
    let (m, steps, status) = m.run(10);
    assert_eq!(steps, 1);
    assert_eq!(status, RunStatus::Finished);
    assert_eq!(m.state, 7);
    assert!(m.time.eq_value(&Time { num: 3, den: 1 }));
}

#[test]
fn table_trigger_runs_the_worked_example() {
    let m = StateMachine::new(3i64, TableTrigger, Time::from_int(0)).unwrap();
    let (m, steps, status) = m.run(100);
    assert_eq!(status, RunStatus::Finished);
    assert_eq!(steps, 4);
    assert_eq!(m.state, 5);
    assert!(m.time.eq_value(&Time { num: 19, den: 1 }));
}

#[test]
fn table_trigger_step_by_step_trace() {
    let mut m = StateMachine::new(3i64, TableTrigger, Time::from_int(0)).unwrap();
    let mut trace: Vec<(i64, Time)> = Vec::new();
    loop {
        let (next, status) = m.step();
        m = next;
        if status != StepStatus::Progressed {
            assert_eq!(status, StepStatus::Terminal);
            break;
        }
        trace.push((m.state, m.time));
    }
    let expected = vec![
        (7i64, Time { num: 3, den: 1 }),
        (27, Time { num: 15, den: 1 }),
        (26, Time { num: 16, den: 1 }),
        (5, Time { num: 19, den: 1 }),
    ];
    assert_eq!(trace.len(), expected.len());
    for (got, want) in trace.iter().zip(expected.iter()) {
        assert_eq!(got.0, want.0);
        assert!(got.1.eq_value(&want.1));
    }
}

#[test]
fn rerunning_the_same_seed_reproduces_the_trace() {
    let run_once = || {
        let mut m = StateMachine::new(3i64, TableTrigger, Time::from_int(0)).unwrap();
        let mut trace: Vec<(i64, Time)> = Vec::new();
        for _ in 0..10 {
            let (next, status) = m.step();
            m = next;
            if status != StepStatus::Progressed {
                break;
            }
            trace.push((m.state, m.time));
        }
        trace
    };
    let first = run_once();
    let second = run_once();
    assert_eq!(first, second);
    assert!(!first.is_empty());
}

#[test]
fn fractional_delays_stay_exact() {
    // State 6 arms +9 after exactly 1/10.
    let trigger = SingleArmTrigger { from: 6, delta: 9, delay: Time { num: 1, den: 10 } };
    let m = StateMachine::new(6i64, trigger, Time::from_int(19)).unwrap();
    let (m, status) = m.step();
    assert_eq!(status, StepStatus::Progressed);
    assert_eq!(m.state, 15);
    assert!(m.time.eq_value(&Time { num: 191, den: 10 }));
}

#[test]
fn seeding_rejects_an_unrepresentable_due_time() {
    let trigger = SingleArmTrigger {
        from: 1,
        delta: 1,
        delay: Time { num: i64::MAX, den: 1 },
    };
    let m = StateMachine::new(1i64, trigger, Time { num: i64::MAX, den: 1 });
    assert!(m.is_none());
}
