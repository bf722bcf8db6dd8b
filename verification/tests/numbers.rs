use lox::number;

fn samples() -> Vec<f64> {
    vec![
        0.0,
        -0.0,
        1.0,
        -1.0,
        0.5,
        -0.5,
        2.0,
        1e300,
        -1e300,
        f64::MIN_POSITIVE,
        -f64::MIN_POSITIVE,
        5e-324,
        -5e-324,
        f64::MAX,
        f64::MIN,
        f64::INFINITY,
        f64::NEG_INFINITY,
        f64::NAN,
        -f64::NAN,
        f64::from_bits(0x7ff0_0000_0000_0001),
        f64::from_bits(0xfff8_0000_0000_0001),
        f64::EPSILON,
        1.0 + f64::EPSILON,
        3.141592653589793,
        -2.718281828459045,
    ]
}

#[test]
fn equality_is_that_of_the_values() {
    for a in samples() {
        for b in samples() {
            assert_eq!(number::eq(a.to_bits(), b.to_bits()), a == b, "{} == {}", a, b);
        }
    }
}

#[test]
fn order_is_that_of_the_values() {
    for a in samples() {
        for b in samples() {
            assert_eq!(number::lt(a.to_bits(), b.to_bits()), a < b, "{} < {}", a, b);
            assert_eq!(number::le(a.to_bits(), b.to_bits()), a <= b, "{} <= {}", a, b);
        }
    }
}

#[test]
fn negation_is_that_of_the_values() {
    for a in samples() {
        assert_eq!(number::negate(a.to_bits()), (-a).to_bits(), "-{}", a);
    }
    assert_eq!(number::negate(1.0f64.to_bits()), (-1.0f64).to_bits());
    assert_eq!(number::negate(0), 0x8000_0000_0000_0000);
}

#[test]
fn nan_is_told() {
    for a in samples() {
        assert_eq!(number::nan(a.to_bits()), a.is_nan(), "{}", a);
    }
    assert!(!number::nan(number::INFINITY_BITS));
    assert!(number::nan(number::INFINITY_BITS + 1));
    assert!(!number::nan(number::SIGN_BIT + number::INFINITY_BITS));
    assert!(number::nan(u64::MAX));
}

#[test]
fn zeros_are_equal_and_not_less() {
    let (plus, minus) = (0.0f64.to_bits(), (-0.0f64).to_bits());
    assert!(number::eq(plus, minus));
    assert!(!number::lt(minus, plus));
    assert!(number::le(minus, plus));
    assert!(number::le(plus, minus));
}
