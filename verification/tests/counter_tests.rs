use bp_emulator::Counter;

fn counter_at_value(value: u8) -> Counter {
    let mut counter = Counter::new();
    while counter.value() < value {
        counter.increment();
    }
    while counter.value() > value {
        counter.decrement();
    }
    counter
}

#[test]
fn new_counter_is_weakly_taken() {
    let counter = Counter::new();
    assert_eq!(counter.value(), 2);
    assert!(counter.predicted_outcome());
}

#[test]
fn increment_saturates_at_three() {
    let mut counter = Counter::new();
    counter.increment();
    assert_eq!(counter.value(), 3);
    counter.increment();
    assert_eq!(counter.value(), 3);
    counter.increment();
    assert_eq!(counter.value(), 3);
}

#[test]
fn decrement_saturates_at_zero() {
    let mut counter = Counter::new();
    counter.decrement();
    assert_eq!(counter.value(), 1);
    counter.decrement();
    assert_eq!(counter.value(), 0);
    counter.decrement();
    assert_eq!(counter.value(), 0);
}

#[test]
fn prediction_follows_the_upper_half() {
    assert!(!counter_at_value(0).predicted_outcome());
    assert!(!counter_at_value(1).predicted_outcome());
    assert!(counter_at_value(2).predicted_outcome());
    assert!(counter_at_value(3).predicted_outcome());
}

#[test]
fn increment_then_decrement_round_trips_below_the_top() {
    for start in 0u8..3 {
        let mut counter = counter_at_value(start);
        counter.increment();
        counter.decrement();
        assert_eq!(counter.value(), start);
    }
}

#[test]
fn increment_then_decrement_loses_one_at_the_top() {
    let mut counter = counter_at_value(3);
    counter.increment();
    counter.decrement();
    assert_eq!(counter.value(), 2);
}

#[test]
fn decrement_then_increment_round_trips_above_the_bottom() {
    for start in 1u8..=3 {
        let mut counter = counter_at_value(start);
        counter.decrement();
        counter.increment();
        assert_eq!(counter.value(), start);
    }
}

#[test]
fn decrement_then_increment_gains_one_at_the_bottom() {
    let mut counter = counter_at_value(0);
    counter.decrement();
    counter.increment();
    assert_eq!(counter.value(), 1);
}

#[test]
fn train_moves_towards_the_outcome() {
    let mut counter = Counter::new();
    counter.train(true);
    assert_eq!(counter.value(), 3);
    counter.train(false);
    assert_eq!(counter.value(), 2);
    counter.train(false);
    assert_eq!(counter.value(), 1);
    counter.train(false);
    assert_eq!(counter.value(), 0);
    counter.train(false);
    assert_eq!(counter.value(), 0);
    counter.train(true);
    assert_eq!(counter.value(), 1);
}
