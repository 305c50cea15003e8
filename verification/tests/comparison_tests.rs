use std::cmp::Ordering;
use vrp_core::comparison::{compare_floats, is_less};

fn cmp(a: f64, b: f64) -> Ordering {
    compare_floats(a.to_bits(), b.to_bits())
}

#[test]
fn orders_finite_values_as_doubles_are_ordered() {
    let values = [
        f64::NEG_INFINITY,
        -1.0e300,
        -42.5,
        -1.0,
        -f64::MIN_POSITIVE,
        -5e-324,
        -0.0,
        0.0,
        5e-324,
        f64::MIN_POSITIVE,
        0.5,
        1.0,
        14.0,
        42.0,
        1.0e300,
        f64::INFINITY,
    ];
    for a in values.iter() {
        for b in values.iter() {
            assert_eq!(cmp(*a, *b), a.partial_cmp(b).unwrap());
            assert_eq!(is_less(a.to_bits(), b.to_bits()), a < b);
        }
    }
}

#[test]
fn both_zeros_are_equal() {
    assert_eq!(cmp(0.0, -0.0), Ordering::Equal);
    assert_eq!(cmp(-0.0, 0.0), Ordering::Equal);
}

#[test]
fn nan_equals_nan() {
    assert_eq!(cmp(f64::NAN, f64::NAN), Ordering::Equal);
    assert_eq!(cmp(f64::NAN, -f64::NAN), Ordering::Equal);
}

#[test]
fn nan_is_greater_than_any_other_value() {
    for x in [f64::NEG_INFINITY, -1.0, 0.0, 1.0, f64::INFINITY].iter() {
        assert_eq!(cmp(f64::NAN, *x), Ordering::Greater);
        assert_eq!(cmp(*x, f64::NAN), Ordering::Less);
        assert!(!is_less(f64::NAN.to_bits(), x.to_bits()));
        assert!(!is_less(x.to_bits(), f64::NAN.to_bits()));
    }
}
