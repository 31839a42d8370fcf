use scematica::fixed::{dot, mean, Fx, ONE};

#[test]
fn multiplication_is_symmetric_under_sign() {
    // 0.30000001 and 0.7000001 in Q16.16, as the importer rounds them.
    let a = Fx::from_bits(19661);
    let b = Fx::from_bits(45875);
    assert_eq!(a.mul(b).neg(), a.neg().mul(b));
    assert_eq!(a.mul(b), a.neg().mul(b.neg()));
}

#[test]
fn arithmetic_saturates_rather_than_wrapping() {
    assert_eq!(Fx::max_value().add(Fx::one()), Fx::max_value());
    assert_eq!(Fx::min_value().sub(Fx::one()), Fx::min_value());
    assert_eq!(Fx::max_value().mul(Fx::from_int(2)), Fx::max_value());
}

#[test]
fn division_by_zero_saturates_instead_of_panicking() {
    assert_eq!(Fx::one().div(Fx::zero()), Fx::max_value());
    assert_eq!(Fx::one().neg().div(Fx::zero()), Fx::min_value());
}

#[test]
fn relu_gates_at_exactly_zero() {
    // -0.0001 and 0.0001 in Q16.16.
    assert_eq!(Fx::from_bits(-7).relu(), Fx::zero());
    assert_eq!(Fx::zero().relu(), Fx::zero());
    assert_eq!(Fx::from_bits(7).relu(), Fx::from_bits(7));
}

#[test]
fn dot_does_not_round_per_term() {
    let tiny = Fx::from_bits(1);
    let a = vec![tiny; 4096];
    let b = vec![Fx::one(); 4096];
    assert_eq!(dot(&a, &b), Fx::from_bits(4096));
}

#[test]
fn mean_matches_hand_computation() {
    let v = [Fx::from_int(1), Fx::from_int(2), Fx::from_int(3)];
    assert_eq!(mean(&v), Fx::from_int(2));
    assert_eq!(mean(&[]), Fx::zero());
}

#[test]
fn mean_is_order_independent_because_the_accumulator_is_widened() {
    let v = [Fx::max_value(), Fx::min_value(), Fx::from_int(6)];
    let mut r = v;
    r.reverse();
    assert_eq!(mean(&v), mean(&r));
}

#[test]
fn one_is_one() {
    assert_eq!(Fx::one().to_bits(), ONE);
    assert_eq!(Fx::from_int(3).to_bits(), 3 * ONE);
}

#[test]
fn multiplication_rounds_half_away_from_zero() {
    // 1.5 * 0.5 = 0.75 exactly; 3 * 2^-16 * 0.5 = 1.5 * 2^-16 rounds away to 2 * 2^-16.
    assert_eq!(Fx::from_bits(98304).mul(Fx::from_bits(32768)), Fx::from_bits(49152));
    assert_eq!(Fx::from_bits(3).mul(Fx::from_bits(32768)), Fx::from_bits(2));
    assert_eq!(Fx::from_bits(-3).mul(Fx::from_bits(32768)), Fx::from_bits(-2));
}

#[test]
fn min_max_clamp_and_abs() {
    let a = Fx::from_int(-4);
    let b = Fx::from_int(9);
    assert_eq!(a.min(b), a);
    assert_eq!(a.max(b), b);
    assert_eq!(Fx::from_int(20).clamp(a, b), b);
    assert_eq!(Fx::from_int(-20).clamp(a, b), a);
    assert_eq!(a.abs(), Fx::from_int(4));
    assert_eq!(Fx::min_value().abs(), Fx::max_value());
}

#[test]
fn operators_delegate_to_the_specified_methods() {
    // 0.3 and -1.7 as Q16.16, rounded once.
    let a = Fx::from_bits(19661);
    let b = Fx::from_bits(-111411);
    assert_eq!(a + b, a.add(b));
    assert_eq!(a - b, a.sub(b));
    assert_eq!(a * b, a.mul(b));
    assert_eq!(a / b, a.div(b));
    assert_eq!(-a, a.neg());
}
