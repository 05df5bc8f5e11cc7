use beatmap::decimal::{decimal_to_ratio, decode_decimal};
use beatmap::error::ErrorKind;
use beatmap::rational::{Rational, Rational32};
use num::rational::Ratio;

fn whole(n: i64) -> Rational {
    Rational::from_integer(n)
}

fn ratio(n: i64, d: i64) -> Rational {
    Rational::new(n, d)
}

#[test]
fn test_decimal_to_ratio() {
    let correct = [
        ("2147483647", whole(2147483647)),
        ("-2147483648", whole(-2147483648)),
        ("0", whole(0)),
        ("-0.0", whole(0)),
        ("0.1", ratio(1, 10)),
        ("1000.1", ratio(10001, 10)),
        ("1.0000001", ratio(10000001, 10000000)),
    ];
    let function = decimal_to_ratio;
    for pair in correct {
        assert_eq!(function(pair.0).unwrap(), pair.1);
    }
}

#[test]
fn decimal_matches_the_ratio_of_num() {
    let cases = [
        ("0.1", Ratio::new(1i64, 10)),
        ("1000.1", Ratio::new(10001, 10)),
        ("1.0000001", Ratio::new(10000001, 10000000)),
        ("105.493329791992", Ratio::new(105493329791992, 1000000000000)),
        ("2.50", Ratio::new(5, 2)),
        ("-7", Ratio::from_integer(-7)),
    ];
    for (text, expected) in cases {
        let got = decimal_to_ratio(text).unwrap();
        assert_eq!((got.numer(), got.denom()), (*expected.numer(), *expected.denom()));
    }
}

#[test]
fn decimal_is_stored_in_lowest_terms() {
    let half = decimal_to_ratio("0.50").unwrap();
    assert_eq!((half.numer(), half.denom()), (1, 2));
    assert_eq!(half, decimal_to_ratio("0.5").unwrap());
    assert_eq!(decimal_to_ratio("-0.0").unwrap(), decimal_to_ratio("0").unwrap());
    assert_eq!(decimal_to_ratio("3.000").unwrap(), whole(3));
}

#[test]
fn decimal_adds_the_fraction_as_written() {
    let r = decimal_to_ratio("-1.5").unwrap();
    assert_eq!((r.numer(), r.denom()), (-1, 2));
    let s = decimal_to_ratio("-0.25").unwrap();
    assert_eq!((s.numer(), s.denom()), (1, 4));
}

#[test]
fn decimal_rejects_what_is_no_literal() {
    let bad = [
        "", " 1", "1 ", "-", ".5", "5.", "1.2.3", "--1", "1-", "5.-3", "+5", "1e3", "abc", "1,5",
        "-.5", "0x10",
    ];
    for text in bad {
        let e = decimal_to_ratio(text).unwrap_err();
        assert_eq!(e.kind, ErrorKind::NumericFormatError);
        assert_eq!(e.text, text.as_bytes().to_vec());
        assert_eq!(e.place, None);
    }
}

#[test]
fn decimal_rejects_what_does_not_fit() {
    assert!(decimal_to_ratio("9223372036854775807").is_ok());
    assert!(decimal_to_ratio("-9223372036854775808").is_ok());
    assert!(decimal_to_ratio("9223372036854775808").is_err());
    assert!(decimal_to_ratio("-9223372036854775809").is_err());
    assert!(decimal_to_ratio("0.0000000000000000001").is_err());
    assert!(decimal_to_ratio("0.000000000000000001").is_ok());
    assert!(decimal_to_ratio("10.000000000000000000").is_err());
    assert!(decimal_to_ratio("9.999999999999999999").is_err());
    assert_eq!(
        decimal_to_ratio("9.223372036854775807").unwrap(),
        ratio(9223372036854775807, 1000000000000000000)
    );
}

#[test]
fn decode_decimal_reads_bytes() {
    assert_eq!(decode_decimal(b"12.5").unwrap(), ratio(25, 2));
    assert!(decode_decimal(b"12.5\r").is_err());
}

#[test]
fn new_reduces_and_keeps_the_denominator_positive() {
    let r = Rational::new(2, 4);
    assert_eq!((r.numer(), r.denom()), (1, 2));
    let s = Rational::new(3, -6);
    assert_eq!((s.numer(), s.denom()), (-1, 2));
    let z = Rational::new(0, 5);
    assert_eq!((z.numer(), z.denom()), (0, 1));
    let t = Rational32::new(448, 100);
    assert_eq!((t.numer(), t.denom()), (112, 25));
    assert_eq!(Rational::new(10, 20), Rational::new(1, 2));
    assert_ne!(Rational::new(1, 3), Rational::new(1, 2));
}

#[test]
fn arithmetic_of_fractions() {
    let a = Rational32::new(1, 2);
    let b = Rational32::new(1, 3);
    assert_eq!(a.plus(b), Rational32::new(5, 6));
    assert_eq!(a.minus(b), Rational32::new(1, 6));
    assert_eq!(b.minus(a), Rational32::new(-1, 6));
    assert_eq!(a.times(b), Rational32::new(1, 6));
    assert_eq!(Rational32::new(2, 3).times(Rational32::new(3, 4)), Rational32::new(1, 2));
    assert!(b.less_than(&a));
    assert!(!a.less_than(&b));
    assert!(!a.less_than(&a));
    assert!(Rational32::new(-1, 2).less_than(&Rational32::new(-1, 3)));
    assert_eq!(Rational32::new(7, 2).to_integer(), 3);
    assert_eq!(Rational32::new(-7, 2).to_integer(), -3);
    assert_eq!(Rational32::from_integer(-4).to_integer(), -4);
}

#[test]
fn order_of_fractions() {
    let cases = [
        ((1, 2), (2, 3), true),
        ((2, 3), (1, 2), false),
        ((1, 2), (1, 2), false),
        ((-1, 2), (1, 3), true),
        ((-1, 2), (-1, 3), true),
        ((-1, 3), (-1, 2), false),
        ((0, 1), (1, 1000000), true),
        ((i64::MAX, 1), (i64::MIN, 1), false),
        ((i64::MIN, 1), (i64::MAX, 1), true),
        ((i64::MAX, 2), (i64::MAX, 3), false),
        ((1, i64::MAX), (1, i64::MAX - 1), true),
    ];
    for ((a, b), (c, d), expected) in cases {
        assert_eq!(Rational::new(a, b).less_than(&Rational::new(c, d)), expected);
        assert_eq!(Ratio::new(a, b) < Ratio::new(c, d), expected);
    }
}
