use ternary_federated::Ternary;

#[test]
fn test_ternary_from_i8() {
    assert_eq!(Ternary::from_i8(-5), Ternary::Neg);
    assert_eq!(Ternary::from_i8(-1), Ternary::Neg);
    assert_eq!(Ternary::from_i8(0), Ternary::Zero);
    assert_eq!(Ternary::from_i8(1), Ternary::Pos);
    assert_eq!(Ternary::from_i8(42), Ternary::Pos);
}

#[test]
fn test_ternary_conversions() {
    assert_eq!(Ternary::Neg.as_i8(), -1);
    assert_eq!(Ternary::Zero.as_i8(), 0);
    assert_eq!(Ternary::Pos.as_i8(), 1);
    assert_eq!(Ternary::Neg.as_i8() as f64, -1.0);
    assert_eq!(Ternary::Zero.as_i8() as f64, 0.0);
    assert_eq!(Ternary::Pos.as_i8() as f64, 1.0);
}

#[test]
fn test_ternary_display() {
    assert_eq!(Ternary::Neg.to_string(), "-1");
    assert_eq!(Ternary::Zero.to_string(), "0");
    assert_eq!(Ternary::Pos.to_string(), "1");
}

#[test]
fn test_ternary_random() {
    let mut state = 12345u64;
    for _ in 0..100 {
        let v = Ternary::random(&mut state);
        assert!(v == Ternary::Neg || v == Ternary::Zero || v == Ternary::Pos);
    }
}

#[test]
fn ternary_from_i8_extremes() {
    assert_eq!(Ternary::from_i8(i8::MIN), Ternary::Neg);
    assert_eq!(Ternary::from_i8(i8::MAX), Ternary::Pos);
}

#[test]
fn ternary_round_trip_through_i8() {
    for t in [Ternary::Neg, Ternary::Zero, Ternary::Pos] {
        assert_eq!(Ternary::from_i8(t.as_i8()), t);
    }
}

#[test]
fn ternary_random_exact_step() {
    let mut state = 12345u64;
    let v = Ternary::random(&mut state);
    assert_eq!(state, 2021368500568277588);
    assert_eq!(v, Ternary::Zero);
}

#[test]
fn ternary_random_is_deterministic() {
    let mut a = 987654321u64;
    let mut b = 987654321u64;
    for _ in 0..20 {
        assert_eq!(Ternary::random(&mut a), Ternary::random(&mut b));
        assert_eq!(a, b);
    }
}
