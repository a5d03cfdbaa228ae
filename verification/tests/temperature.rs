use temperature_app::temperature::{Celsius, Fahrenheit};

#[test]
fn round_trip_stays_within_two_millidegrees() {
    // On values where integer truncation makes the trip inexact, the loss
    // is bounded: at most two millidegrees, and never a gain in magnitude.
    for &milli_f in &[32_001i64, 32_004, 31_999, 31_996, -12_345, 98_765, 7] {
        let back = Fahrenheit::from_milli(milli_f).to_celsius().to_fahrenheit().value();
        assert!((back - milli_f).abs() <= 2);
    }
}

#[test]
fn zero_celsius_is_exactly_32_fahrenheit() {
    let c = Celsius::from_milli(0);
    assert_eq!(c.to_fahrenheit(), Fahrenheit::from_milli(32_000));
}

#[test]
fn boiling_point_converts_exactly() {
    let c = Celsius::from_milli(100_000);
    assert_eq!(c.to_fahrenheit().value(), 212_000);
}

#[test]
fn minus_forty_is_the_fixed_point() {
    let c = Celsius::from_milli(-40_000);
    assert_eq!(c.to_fahrenheit().value(), -40_000);
    let f = Fahrenheit::from_milli(-40_000);
    assert_eq!(f.to_celsius().value(), -40_000);
}

#[test]
fn fahrenheit_round_trip() {
    for &milli_f in &[41_000i64, 212_000, 32_000, -40_000, 32_009, 31_991] {
        let f = Fahrenheit::from_milli(milli_f);
        assert_eq!(f.to_celsius().to_fahrenheit().value(), milli_f);
    }
}

#[test]
fn celsius_round_trip() {
    for &milli_c in &[25_000i64, 0, -5, 5, 100_000, -40_000] {
        let c = Celsius::from_milli(milli_c);
        assert_eq!(c.to_fahrenheit().to_celsius().value(), milli_c);
    }
}

#[test]
fn conversion_rounds_toward_zero() {
    // 0.001 C is 0.0018 F: the exact result is not a whole millidegree.
    assert_eq!(Celsius::from_milli(1).to_fahrenheit().value(), 32_001);
    assert_eq!(Celsius::from_milli(-1).to_fahrenheit().value(), 31_999);
}

#[test]
fn addition_stays_within_celsius() {
    let raw = Celsius::from_milli(26_500);
    let adjustment = Celsius::from_milli(1_500);
    assert_eq!(raw.plus(adjustment), Celsius::from_milli(28_000));
}

#[test]
fn value_returns_the_millidegrees() {
    assert_eq!(Celsius::from_milli(27_000).value(), 27_000);
    assert_eq!(Fahrenheit::from_milli(80_600).value(), 80_600);
}
