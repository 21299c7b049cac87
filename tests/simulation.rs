use std::collections::HashMap;

use puzzles::boarding::{board, board_with_picks, must_choose, position_of, take_seat};
use puzzles::error::PlanesError;
use puzzles::label::{build_seat_universe, label_for};
use puzzles::planes::{assign_seats, Planes};
use puzzles::simulation::Estimate;

fn cols(s: &str) -> Vec<char> {
    s.chars().collect()
}

fn strings(v: &[&str]) -> Vec<String> {
    v.iter().map(|s| s.to_string()).collect()
}

fn ratio(e: &Estimate) -> f64 {
    e.successes as f64 / e.trials as f64
}

#[test]
fn new_accepts_default_configuration() {
    let p = Planes::new(100, 100, "ABCDEF").unwrap();
    assert_eq!(p.passengers, 100);
    assert_eq!(p.seats, 100);
    assert_eq!(p.cols, cols("ABCDEF"));
}

#[test]
fn new_rejects_more_passengers_than_seats() {
    let r = Planes::new(5, 4, "AB");
    assert!(matches!(r, Err(PlanesError::ConfigurationError)));
}

#[test]
fn new_rejects_empty_columns() {
    let r = Planes::new(2, 4, "");
    assert!(matches!(r, Err(PlanesError::ConfigurationError)));
}

#[test]
fn new_rejects_zero_passengers() {
    let r = Planes::new(0, 4, "AB");
    assert!(matches!(r, Err(PlanesError::ConfigurationError)));
}

#[test]
fn new_accepts_equal_counts() {
    assert!(Planes::new(1, 1, "A").is_ok());
}

#[test]
fn universe_of_six_seats_in_two_columns() {
    let u = build_seat_universe(6, &cols("AB"));
    assert_eq!(u, strings(&["1A", "1B", "2A", "2B", "3A", "3B"]));
}

#[test]
fn universe_of_zero_seats_is_empty() {
    assert!(build_seat_universe(0, &cols("AB")).is_empty());
}

#[test]
fn label_with_two_digit_row() {
    assert_eq!(label_for(60, &cols("ABCDEF")), "11A");
    assert_eq!(label_for(65, &cols("ABCDEF")), "11F");
    assert_eq!(label_for(0, &cols("ABCDEF")), "1A");
    assert_eq!(label_for(999, &cols("A")), "1000A");
}

#[test]
fn seating_has_one_distinct_seat_per_passenger() {
    let p = Planes::new(40, 60, "ABCDEF").unwrap();
    let universe = build_seat_universe(60, &cols("ABCDEF"));
    let m = p.generate_seating();
    assert_eq!(m.len(), 40);
    for k in 1..=40u64 {
        assert!(universe.contains(&m[&k]));
    }
    let mut values: Vec<&String> = m.values().collect();
    values.sort();
    values.dedup();
    assert_eq!(values.len(), 40);
}

#[test]
fn seating_is_shuffled() {
    let p = Planes::new(10, 10, "ABCDEF").unwrap();
    let universe = build_seat_universe(10, &cols("ABCDEF"));
    let mut moved = false;
    for _ in 0..20 {
        let m = p.generate_seating();
        if (1..=10u64).any(|k| m[&k] != universe[(k - 1) as usize]) {
            moved = true;
        }
    }
    assert!(moved);
}

#[test]
fn seating_leaves_configuration_unchanged() {
    let p = Planes::new(3, 8, "ABCD").unwrap();
    for _ in 0..5 {
        let _ = p.generate_seating();
        assert_eq!(p.passengers, 3);
        assert_eq!(p.seats, 8);
        assert_eq!(p.cols, cols("ABCD"));
    }
}

#[test]
fn single_passenger_always_gets_own_seat() {
    let p = Planes::new(1, 1, "ABCDEF").unwrap();
    let e = p.run_simulation(1000).unwrap();
    assert_eq!(e.trials, 1000);
    assert_eq!(e.successes, 1000);
    assert_eq!(ratio(&e), 1.0);
}

#[test]
fn two_passengers_near_half() {
    let p = Planes::new(2, 2, "ABCDEF").unwrap();
    let e = p.run_simulation(100000).unwrap();
    assert_eq!(e.trials, 100000);
    assert!((ratio(&e) - 0.5).abs() <= 0.02);
}

#[test]
fn hundred_passengers_near_half() {
    let p = Planes::new(100, 100, "ABCDEF").unwrap();
    let e = p.run_simulation(100000).unwrap();
    assert_eq!(e.trials, 100000);
    assert!((ratio(&e) - 0.5).abs() <= 0.02);
}

#[test]
fn zero_iterations_is_refused() {
    let p = Planes::new(2, 2, "AB").unwrap();
    assert!(matches!(p.run_simulation(0), Err(PlanesError::DivisionUndefined)));
}

#[test]
fn trial_with_one_passenger_succeeds() {
    let p = Planes::new(1, 5, "AB").unwrap();
    for _ in 0..50 {
        assert_eq!(p.run_trial(), Ok(true));
    }
}

#[test]
fn board_lone_passenger() {
    let mut m = HashMap::new();
    m.insert(1u64, "7C".to_string());
    assert_eq!(board(&m, 1), Ok(true));
}

#[test]
fn board_two_passengers_sees_both_outcomes() {
    let mut m = HashMap::new();
    m.insert(1u64, "1A".to_string());
    m.insert(2u64, "1B".to_string());
    let mut wins = 0;
    for _ in 0..200 {
        if board(&m, 2).unwrap() {
            wins += 1;
        }
    }
    assert!(wins > 0 && wins < 200);
}

#[test]
fn position_finds_first_match() {
    let pool = strings(&["1A", "2B", "1A"]);
    assert_eq!(position_of(&pool, &"1A".to_string()), Some(0));
    assert_eq!(position_of(&pool, &"2B".to_string()), Some(1));
    assert_eq!(position_of(&pool, &"3C".to_string()), None);
}

#[test]
fn first_passenger_always_chooses() {
    let pool = strings(&["1A", "1B"]);
    assert!(must_choose(1, &pool, &"1A".to_string()));
    assert!(!must_choose(2, &pool, &"1B".to_string()));
    assert!(must_choose(2, &pool, &"2A".to_string()));
}

#[test]
fn take_seat_removes_first_occurrence() {
    let mut pool = strings(&["1A", "1B", "1A"]);
    assert_eq!(take_seat(&mut pool, &"1A".to_string()), Ok(()));
    assert_eq!(pool, strings(&["1B", "1A"]));
}

#[test]
fn take_seat_absent_is_invariant_violation() {
    let mut pool = strings(&["1A", "1B"]);
    assert_eq!(
        take_seat(&mut pool, &"2A".to_string()),
        Err(PlanesError::InvariantViolation)
    );
    assert_eq!(pool, strings(&["1A", "1B"]));
}

#[test]
fn estimate_records_outcomes() {
    let mut e = Estimate::empty();
    e.record(true);
    e.record(false);
    e.record(true);
    assert_eq!(e, Estimate { successes: 2, trials: 3 });
}

#[test]
fn error_messages() {
    assert_eq!(
        PlanesError::ConfigurationError.message(),
        "passenger_count exceeds seat_count or no column labels"
    );
    assert_eq!(PlanesError::DivisionUndefined.message(), "iterations must be positive");
    assert_eq!(PlanesError::InvariantViolation.message(), "seat taken is not open");
}

fn three_seats() -> HashMap<u64, String> {
    let mut m = HashMap::new();
    m.insert(1u64, "1A".to_string());
    m.insert(2u64, "1B".to_string());
    m.insert(3u64, "1C".to_string());
    m
}

#[test]
fn picks_first_passenger_takes_own_seat() {
    assert_eq!(board_with_picks(&three_seats(), 3, &vec![0, 0, 0]), Ok(true));
}

#[test]
fn picks_first_passenger_takes_last_seat() {
    assert_eq!(board_with_picks(&three_seats(), 3, &vec![2, 0, 0]), Ok(false));
}

#[test]
fn picks_cascade_into_last_seat() {
    assert_eq!(board_with_picks(&three_seats(), 3, &vec![1, 1, 0]), Ok(false));
}

#[test]
fn picks_cascade_into_first_seat() {
    assert_eq!(board_with_picks(&three_seats(), 3, &vec![1, 0, 0]), Ok(true));
}

#[test]
fn assign_seats_takes_leading_labels_in_order() {
    let labels = strings(&["2B", "1A", "3C", "1B"]);
    let m = assign_seats(&labels, 3);
    assert_eq!(m.len(), 3);
    assert_eq!(m[&1], "2B");
    assert_eq!(m[&2], "1A");
    assert_eq!(m[&3], "3C");
}
