use ternary_federated::{Fitness, Strategy, Ternary};

fn ratio(f: Fitness) -> f64 {
    f.hits as f64 / f.total as f64
}

#[test]
fn test_strategy_random_length() {
    let mut state = 42u64;
    let s = Strategy::random(10, &mut state);
    assert_eq!(s.len(), 10);
    assert!(!s.is_empty());
}

#[test]
fn test_strategy_zeros() {
    let s = Strategy::zeros(5);
    assert_eq!(s.len(), 5);
    assert!(s.values.iter().all(|v| *v == Ternary::Zero));
}

#[test]
fn test_strategy_fitness_perfect() {
    let target = Strategy {
        values: vec![Ternary::Pos, Ternary::Neg, Ternary::Zero],
    };
    let s = target.clone();
    assert!((ratio(s.fitness_against(&target)) - 1.0).abs() < 1e-9);
}

#[test]
fn test_strategy_fitness_zero() {
    let target = Strategy {
        values: vec![Ternary::Pos, Ternary::Pos, Ternary::Pos],
    };
    let s = Strategy {
        values: vec![Ternary::Neg, Ternary::Neg, Ternary::Neg],
    };
    assert!((ratio(s.fitness_against(&target)) - 0.0).abs() < 1e-9);
}

#[test]
fn test_strategy_fitness_partial() {
    let target = Strategy {
        values: vec![Ternary::Pos, Ternary::Neg, Ternary::Zero, Ternary::Pos],
    };
    let s = Strategy {
        values: vec![Ternary::Pos, Ternary::Zero, Ternary::Zero, Ternary::Neg],
    };
    assert!((ratio(s.fitness_against(&target)) - 0.5).abs() < 1e-9);
}

#[test]
fn test_strategy_mutate_changes_something() {
    let mut state = 99u64;
    let unmutated = Strategy {
        values: vec![Ternary::Zero; 20],
    };
    let mut mutated = unmutated.clone();
    for _ in 0..5 {
        mutated.mutate(&mut state);
    }
    assert_ne!(unmutated, mutated);
}

#[test]
fn strategy_random_exact_values() {
    let mut state = 42u64;
    let s = Strategy::random(5, &mut state);
    assert_eq!(
        s.values,
        vec![Ternary::Zero, Ternary::Pos, Ternary::Zero, Ternary::Neg, Ternary::Pos]
    );
    assert_eq!(state, 12546512532490043765);
}

#[test]
fn strategy_random_empty_keeps_state() {
    let mut state = 42u64;
    let s = Strategy::random(0, &mut state);
    assert!(s.is_empty());
    assert_eq!(state, 42);
}

#[test]
fn strategy_fitness_exact_fraction() {
    let target = Strategy {
        values: vec![Ternary::Pos, Ternary::Neg, Ternary::Zero, Ternary::Pos],
    };
    let s = Strategy {
        values: vec![Ternary::Pos, Ternary::Zero, Ternary::Zero, Ternary::Neg],
    };
    assert_eq!(s.fitness_against(&target), Fitness { hits: 2, total: 4 });
    assert_eq!(target.fitness_against(&s), Fitness { hits: 2, total: 4 });
}

#[test]
fn strategy_fitness_length_mismatch_is_zero() {
    let target = Strategy { values: vec![Ternary::Pos, Ternary::Pos] };
    let s = Strategy { values: vec![Ternary::Pos] };
    let f = s.fitness_against(&target);
    assert_eq!(f, Fitness { hits: 0, total: 1 });
    assert_eq!(ratio(f), 0.0);
}

#[test]
fn strategy_fitness_of_empty_strategies_is_zero() {
    let a = Strategy::zeros(0);
    let f = a.fitness_against(&Strategy::zeros(0));
    assert_eq!(f, Fitness { hits: 0, total: 1 });
    let r = ratio(f);
    assert!(!r.is_nan() && 0.0 <= r && r <= 1.0);
}

#[test]
fn strategy_fitness_always_in_unit_interval() {
    let mut state = 17u64;
    for len in 0..6 {
        let a = Strategy::random(len, &mut state);
        let b = Strategy::random(len, &mut state);
        let f = a.fitness_against(&b);
        assert!(f.total > 0 && f.hits <= f.total);
    }
}

#[test]
fn strategy_mutate_exact_position_and_value() {
    let mut state = 7u64;
    let mut s = Strategy::zeros(4);
    s.mutate(&mut state);
    assert_eq!(s.values, vec![Ternary::Zero, Ternary::Zero, Ternary::Pos, Ternary::Zero]);
    assert_eq!(state, 17628806926561717905);
}

#[test]
fn strategy_mutate_changes_at_most_one_position() {
    let mut state = 5u64;
    let mut s = Strategy::zeros(12);
    for _ in 0..30 {
        let before = s.clone();
        s.mutate(&mut state);
        assert_eq!(s.len(), 12);
        let changed = before.values.iter().zip(&s.values).filter(|(a, b)| a != b).count();
        assert!(changed <= 1);
    }
}

#[test]
fn strategy_mutate_empty_is_noop() {
    let mut state = 11u64;
    let mut s = Strategy::zeros(0);
    s.mutate(&mut state);
    assert!(s.is_empty());
    assert_eq!(state, 11);
}

#[test]
fn strategy_duplicate_equals_source() {
    let mut state = 3u64;
    let s = Strategy::random(9, &mut state);
    assert_eq!(s.duplicate(), s);
}
