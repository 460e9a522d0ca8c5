use event_engine::queue::EventQueue;
use event_engine::time::Time;

#[test]
fn time_new_rejects_nonpositive_denominator() {
    assert_eq!(Time::new(1, 0), None);
    assert_eq!(Time::new(1, -2), None);
    assert_eq!(Time::new(3, 2), Some(Time { num: 3, den: 2 }));
}

#[test]
fn time_checked_add_reduces() {
    let half = Time { num: 1, den: 2 };
    let third = Time { num: 1, den: 3 };
    assert_eq!(half.checked_add(&third), Some(Time { num: 5, den: 6 }));
    assert_eq!(half.checked_add(&half), Some(Time { num: 1, den: 1 }));
}

#[test]
fn time_checked_add_signs_and_zero() {
    let neg_half = Time { num: -1, den: 2 };
    let half = Time { num: 1, den: 2 };
    assert_eq!(neg_half.checked_add(&half), Some(Time { num: 0, den: 1 }));
    let t = Time { num: -7, den: 3 };
    assert_eq!(t.checked_add(&Time { num: 1, den: 3 }), Some(Time { num: -2, den: 1 }));
}

#[test]
fn time_checked_add_overflow_is_none() {
    let big = Time { num: i64::MAX, den: 1 };
    assert_eq!(big.checked_add(&big), None);
}

#[test]
fn time_comparisons_are_by_value() {
    let half = Time { num: 1, den: 2 };
    let two_quarters = Time { num: 2, den: 4 };
    let third = Time { num: 1, den: 3 };
    assert!(half.eq_value(&two_quarters));
    assert!(third.lt(&half));
    assert!(third.le(&half));
    assert!(half.le(&two_quarters));
    assert!(!half.lt(&two_quarters));
}

#[test]
fn queue_pops_global_minimum() {
    let mut q: EventQueue<u64> = EventQueue::new();
    q.push(1, Time::from_int(5));
    q.push(2, Time::from_int(3));
    q.push(3, Time::from_int(4));
    let a = q.pop_min().unwrap();
    let b = q.pop_min().unwrap();
    let c = q.pop_min().unwrap();
    assert_eq!((a.payload, b.payload, c.payload), (2, 3, 1));
    // The popped due times never decrease.
    assert!(a.due.le(&b.due));
    assert!(b.due.le(&c.due));
    assert!(q.pop_min().is_none());
}

#[test]
fn queue_breaks_ties_towards_earliest_push() {
    let mut q: EventQueue<u64> = EventQueue::new();
    q.push(1, Time::from_int(5));
    q.push(2, Time::from_int(3));
    q.push(3, Time::from_int(5));
    assert_eq!(q.pop_min().unwrap().payload, 2);
    assert_eq!(q.pop_min().unwrap().payload, 1);
    assert_eq!(q.pop_min().unwrap().payload, 3);
}

#[test]
fn queue_peek_does_not_mutate() {
    let mut q: EventQueue<u64> = EventQueue::new();
    assert_eq!(q.peek_min_time(), None);
    q.push(9, Time::from_int(7));
    q.push(8, Time::from_int(2));
    assert_eq!(q.peek_min_time(), Some(Time { num: 2, den: 1 }));
    assert_eq!(q.len(), 2);
    assert!(!q.is_empty());
}
