use ray_tracer::key::{from_bits, is_number, to_bits, INFINITY, SIGN};

fn key(x: f64) -> i64 {
    from_bits(x.to_bits())
}

fn number(k: i64) -> f64 {
    f64::from_bits(to_bits(k))
}

const SAMPLES: [f64; 15] = [
    f64::NEG_INFINITY,
    f64::MIN,
    -1000.5,
    -1.0,
    -0.001,
    -f64::MIN_POSITIVE,
    -5e-324,
    0.0,
    5e-324,
    f64::MIN_POSITIVE,
    0.001,
    1.0,
    1000.5,
    f64::MAX,
    f64::INFINITY,
];

#[test]
fn keys_of_the_zeros_are_zero() {
    assert_eq!(key(0.0), 0);
    assert_eq!(key(-0.0), 0);
    assert_eq!(from_bits(SIGN), 0);
}

#[test]
fn keys_of_some_numbers() {
    assert_eq!(key(1.0), 0x3ff0_0000_0000_0000);
    assert_eq!(key(-1.0), -0x3ff0_0000_0000_0000);
    assert_eq!(key(f64::INFINITY), INFINITY);
    assert_eq!(key(f64::NEG_INFINITY), -INFINITY);
    assert_eq!(from_bits(u64::MAX), -i64::MAX);
}

#[test]
fn keys_are_ordered_as_the_numbers_are() {
    for a in SAMPLES.iter() {
        for b in SAMPLES.iter() {
            assert_eq!(key(*a) < key(*b), a < b);
            assert_eq!(key(*a) == key(*b), a == b);
        }
    }
}

#[test]
fn key_of_the_negated_number_is_the_negated_key() {
    for a in SAMPLES.iter() {
        assert_eq!(key(-*a), -key(*a));
    }
}

#[test]
fn keys_come_back_as_the_same_number() {
    for a in SAMPLES.iter() {
        assert_eq!(number(key(*a)), *a);
        assert_eq!(key(number(key(*a))), key(*a));
    }
    assert_eq!(to_bits(key(-0.0)), 0);
}

#[test]
fn bits_of_some_keys() {
    assert_eq!(to_bits(0), 0);
    assert_eq!(to_bits(5), 5);
    assert_eq!(to_bits(-5), SIGN + 5);
    assert_eq!(to_bits(i64::MAX), i64::MAX as u64);
    assert_eq!(to_bits(-i64::MAX), u64::MAX);
    assert_eq!(to_bits(i64::MIN), u64::MAX);
}

#[test]
fn numbers_and_what_is_not_a_number() {
    for a in SAMPLES.iter() {
        assert!(is_number(key(*a)));
    }
    assert!(!is_number(key(f64::NAN)));
    assert!(!is_number(INFINITY + 1));
    assert!(!is_number(-INFINITY - 1));
    assert!(!is_number(i64::MIN));
}
