use sgtop::num::{add_up, peak, Calc, Num};

fn n(v: f64) -> Num {
    Num { bits: v.to_bits() }
}

fn f(v: Num) -> f64 {
    f64::from_bits(v.bits)
}

fn calc(c: Calc) -> Num {
    n(match c {
        Calc::Sum(a, b) => f(a) + f(b),
        _ => panic!("only sums are asked for here"),
    })
}

const SAMPLES: [f64; 14] = [
    0.0,
    -0.0,
    0.5,
    1.0,
    1.99,
    -3.0,
    -0.25,
    4503599627370497.0,
    1e15,
    1.8e19,
    1e30,
    f64::NAN,
    f64::INFINITY,
    f64::NEG_INFINITY,
];

#[test]
fn truncation() {
    for x in SAMPLES {
        assert_eq!(n(x).to_count(), x as u64);
    }
}

#[test]
fn order_is_that_of_the_numbers() {
    for x in SAMPLES {
        assert_eq!(n(x).is_nan(), x.is_nan());
        assert_eq!(n(x).is_finite(), x.is_finite());
        assert_eq!(n(x).is_positive(), x > 0.0);
        for y in SAMPLES {
            assert_eq!(n(x).is_below(n(y)), x < y, "{x} {y}");
            assert_eq!(n(x).is_at_most(n(y)), x <= y, "{x} {y}");
        }
    }
}

#[test]
fn extremes_ignore_what_is_no_number() {
    assert_eq!(f(n(1.0).max(n(f64::NAN))), 1.0);
    assert_eq!(f(n(f64::NAN).max(n(1.0))), 1.0);
    assert_eq!(f(n(2.0).max(n(3.0))), 3.0);
    assert_eq!(f(n(f64::NAN).min(n(1.0))), 1.0);
    assert_eq!(f(n(1.0).min(n(f64::NAN))), 1.0);
    assert_eq!(f(n(2.0).min(n(-3.0))), -3.0);
}

#[test]
fn clamping_stays_in_bounds() {
    assert_eq!(f(n(-1.0).clamp(n(0.0), n(1.0))), 0.0);
    assert_eq!(f(n(0.25).clamp(n(0.0), n(1.0))), 0.25);
    assert_eq!(f(n(f64::INFINITY).clamp(n(0.0), n(1.0))), 1.0);
    assert!(f(n(f64::NAN).clamp(n(0.0), n(1.0))).is_nan());
}

#[test]
fn peak_is_the_largest_and_never_negative() {
    assert_eq!(f(peak(&[])), 0.0);
    assert_eq!(f(peak(&[n(-2.0)])), 0.0);
    assert_eq!(f(peak(&[n(2.0), n(f64::NAN), n(7.5), n(3.0)])), 7.5);
}

#[test]
fn sums_start_from_zero() {
    assert_eq!(f(add_up(&[], calc)), 0.0);
    assert_eq!(f(add_up(&[n(1.5), n(2.0), n(-0.5)], calc)), 3.0);
}
