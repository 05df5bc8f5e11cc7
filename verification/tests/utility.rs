use beatmap::rational::Rational32;
use beatmap::utility::{ar_to_ez, ar_to_hr, ar_to_ms, cs_to_osu_px};

fn whole(n: i32) -> Rational32 {
    Rational32::from_integer(n)
}

fn ratio(n: i32, d: i32) -> Rational32 {
    Rational32::new(n, d)
}

#[test]
fn test_cs_to_osu_px() {
    let correct = [
        (whole(0), ratio(544, 10)),
        (whole(1), ratio(4992, 100)),
        (whole(9), ratio(1408, 100)),
        (whole(10), ratio(96, 10)),
    ];
    let function = cs_to_osu_px;
    for pair in correct {
        assert_eq!(function(pair.0), pair.1);
    }
}

#[test]
fn test_ar_to_ms() {
    let correct = [
        (whole(10), 450),
        (ratio(98, 10), 480),
        (whole(9), 600),
        (ratio(84, 10), 690),
        (whole(8), 750),
        (whole(7), 900),
        (whole(6), 1050),
        (ratio(56, 10), 1110),
        (whole(5), 1200),
        (ratio(42, 10), 1296),
        (whole(4), 1320),
        (whole(3), 1440),
        (ratio(28, 10), 1464),
        (whole(2), 1560),
        (ratio(14, 10), 1632),
        (whole(1), 1680),
        (whole(0), 1800),
    ];
    let function = ar_to_ms;
    for pair in correct {
        assert_eq!(function(pair.0), pair.1);
    }
}

#[test]
fn test_ar_to_hr() {
    let correct = [
        (whole(10), whole(10)),
        (whole(9), whole(10)),
        (whole(8), whole(10)),
        (whole(7), ratio(98, 10)),
        (whole(6), ratio(84, 10)),
        (whole(5), whole(7)),
        (whole(4), ratio(56, 10)),
        (whole(3), ratio(42, 10)),
        (whole(2), ratio(28, 10)),
        (whole(1), ratio(14, 10)),
        (whole(0), whole(0)),
    ];
    let function = ar_to_hr;
    for pair in correct {
        assert_eq!(function(pair.0), pair.1);
    }
}

#[test]
fn test_ar_to_ez() {
    let correct = [
        (whole(10), whole(5)),
        (whole(9), ratio(9, 2)),
        (whole(8), ratio(8, 2)),
        (whole(7), ratio(7, 2)),
        (whole(6), ratio(6, 2)),
        (whole(5), ratio(5, 2)),
        (whole(4), ratio(4, 2)),
        (whole(3), ratio(3, 2)),
        (whole(2), ratio(2, 2)),
        (whole(1), ratio(1, 2)),
        (whole(0), whole(0)),
    ];
    let function = ar_to_ez;
    for pair in correct {
        assert_eq!(function(pair.0), pair.1);
    }
}

#[test]
fn conversions_on_fractions() {
    assert_eq!(cs_to_osu_px(ratio(9, 2)), ratio(3424, 100));
    assert_eq!(ar_to_ms(ratio(-1, 2)), 1860);
    assert_eq!(ar_to_ms(ratio(21, 2)), 375);
    assert_eq!(ar_to_ms(ratio(31, 3)), 400);
    assert_eq!(ar_to_hr(ratio(50, 7)), whole(10));
    assert_eq!(ar_to_hr(ratio(71, 10)), ratio(994, 100));
    assert_eq!(ar_to_ez(ratio(-3, 4)), ratio(-3, 8));
}
