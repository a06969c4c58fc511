use iced_lowres::counter::{update, Message};
use iced_lowres::label::counter_label;

#[test]
fn increment_adds_one() {
    let mut counter: u64 = 41;
    update(&mut counter, Message::Increment);
    assert_eq!(counter, 42);
}

#[test]
fn decrement_subtracts_one() {
    let mut counter: u64 = 42;
    update(&mut counter, Message::Decrement);
    assert_eq!(counter, 41);
}

#[test]
fn decrement_at_zero_stays_at_zero() {
    let mut counter: u64 = 0;
    update(&mut counter, Message::Decrement);
    assert_eq!(counter, 0);
}

#[test]
fn decrement_at_max_subtracts_one() {
    let mut counter: u64 = u64::MAX;
    update(&mut counter, Message::Decrement);
    assert_eq!(counter, u64::MAX - 1);
}

#[test]
fn increment_then_decrement_restores() {
    for start in [0u64, 1, 7, 1000, u64::MAX - 1] {
        let mut counter = start;
        update(&mut counter, Message::Increment);
        update(&mut counter, Message::Decrement);
        assert_eq!(counter, start);
    }
}

#[test]
fn decrement_then_increment_restores_positive() {
    for start in [1u64, 2, 99, u64::MAX] {
        let mut counter = start;
        update(&mut counter, Message::Decrement);
        update(&mut counter, Message::Increment);
        assert_eq!(counter, start);
    }
}

#[test]
fn label_of_zero() {
    assert_eq!(counter_label(0), "0");
}

#[test]
fn label_of_small_numbers() {
    assert_eq!(counter_label(7), "7");
    assert_eq!(counter_label(10), "10");
    assert_eq!(counter_label(42), "42");
    assert_eq!(counter_label(1000), "1000");
}

#[test]
fn label_of_max() {
    assert_eq!(counter_label(u64::MAX), "18446744073709551615");
}

#[test]
fn label_matches_std_formatting() {
    for n in [0u64, 1, 9, 10, 11, 99, 100, 12345, 1 << 40, u64::MAX / 3] {
        assert_eq!(counter_label(n), n.to_string());
    }
}

#[test]
fn label_reads_back() {
    for n in [0u64, 5, 58, 9000, 123456789] {
        let label = counter_label(n);
        assert!(label.chars().all(|c| c.is_ascii_digit()));
        assert!(n == 0 || !label.starts_with('0'));
        assert_eq!(label.parse::<u64>().unwrap(), n);
    }
}
