//! Conversions between difficulty settings and what they mean in play.
//!
//! The play field is 512 by 384 map pixels, with its centre at (256, 192).

use crate::rational::{
    lemma_cancel,
    lemma_gcd_step,
    lemma_reduced,
    lemma_reduced_is,
    lemma_reduced_bounds,
    magnitude,
    same_ratio,
    truncated,
    lemma_truncated_same_number,
    Rational32,
};
use vstd::prelude::*;

verus! {

/// The radius of a circle, in map pixels, at circle size `cs`:
/// 54.4 - 4.48 * cs.
pub fn cs_to_osu_px(cs: Rational32) -> (r: Rational32)
    requires
        cs.wf(),
        6800 * cs@.1 + 560 * magnitude(cs@.0) <= i32::MAX,
    ensures
        r.wf(),
        r == Rational32::spec_new(54400 * cs@.1 - 4480 * cs@.0, 1000 * cs@.1),
{
    let base = Rational32::new(544, 10);
    let step = Rational32::new(448, 100);
    proof {
        lemma_gcd_step(272, 5, 2);
        lemma_gcd_step(5, 2, 1);
        lemma_gcd_step(2, 1, 0);
        lemma_gcd_step(112, 25, 12);
        lemma_gcd_step(25, 12, 1);
        lemma_gcd_step(12, 1, 0);
        lemma_reduced_is(544, 10, 272, 5);
        lemma_reduced_is(448, 100, 112, 25);
    }
    let ghost n = cs@.0;
    let ghost d = cs@.1;
    let scaled = step.times(cs);
    let ghost p = scaled@.0;
    let ghost q = scaled@.1;
    proof {
        lemma_reduced(112 * n, 25 * d);
        lemma_reduced_bounds(112 * n, 25 * d);
        assert(magnitude(272 * q) + magnitude(p * 5) <= i32::MAX);
    }
    let r = base.minus(scaled);
    proof {
        assert(same_ratio(272 * q - p * 5, 5 * q, 54400 * d - 4480 * n, 1000 * d))
            by (nonlinear_arith)
            requires
                p * (25 * d) == (112 * n) * q,
        ;
        Rational32::lemma_spec_new_same_number(
            272 * q - p * 5,
            5 * q,
            54400 * d - 4480 * n,
            1000 * d,
        );
    }
    r
}

/// The number of milliseconds for which an object is shown before its
/// time, at approach rate `ar`: 1200 + 120 * (5 - ar) below five, and
/// 1200 + 150 * (5 - ar) from five on, rounded towards zero.
pub fn ar_to_ms(ar: Rational32) -> (ms: i32)
    requires
        ar.wf(),
        1950 * ar@.1 + 150 * magnitude(ar@.0) <= i32::MAX,
    ensures
        ms == truncated(
            1200 * ar@.1 + (if ar@.0 < 5 * ar@.1 {
                120int
            } else {
                150int
            }) * (5 * ar@.1 - ar@.0),
            ar@.1,
        ),
{
    let ghost n = ar@.0;
    let ghost d = ar@.1;
    let five = Rational32::from_integer(5);
    let scalar = if ar.less_than(&five) {
        Rational32::from_integer(120)
    } else {
        Rational32::from_integer(150)
    };
    let ghost s = scalar@.0;
    let gap = five.minus(ar);
    let ghost u = gap@.0;
    let ghost v = gap@.1;
    proof {
        lemma_reduced(5 * d - n, d);
        lemma_reduced_bounds(5 * d - n, d);
        assert(-i32::MAX <= s * u <= i32::MAX) by (nonlinear_arith)
            requires
                s == 120 || s == 150,
                magnitude(u) <= magnitude(5 * d - n),
                1950 * d + 150 * magnitude(n) <= i32::MAX,
                d > 0,
        ;
    }
    let scaled = scalar.times(gap);
    let ghost a = scaled@.0;
    let ghost b = scaled@.1;
    proof {
        lemma_reduced(s * u, v);
        lemma_reduced_bounds(s * u, v);
        assert(magnitude(1200 * b) + magnitude(a) <= i32::MAX) by (nonlinear_arith)
            requires
                s == 120 || s == 150,
                magnitude(a) <= magnitude(s * u),
                magnitude(u) <= magnitude(5 * d - n),
                0 < b <= v,
                v <= d,
                1950 * d + 150 * magnitude(n) <= i32::MAX,
        ;
    }
    let total = Rational32::from_integer(1200).plus(scaled);
    proof {
        lemma_reduced(1200 * b + a, b);
        let x = 5 * d - n;
        let top = total@.0;
        let bottom = total@.1;
        assert(v * (a * d) == v * (s * b * x)) by (nonlinear_arith)
            requires
                a * v == (s * u) * b,
                u * d == x * v,
        ;
        lemma_cancel(v, a * d, s * b * x);
        let ad = a * d;
        let sx = s * x;
        assert(ad == b * sx) by (nonlinear_arith)
            requires
                ad == s * b * x,
                sx == s * x,
        ;
        let tb = top * b;
        assert(tb * d == 1200 * (b * bottom * d) + ad * bottom) by (nonlinear_arith)
            requires
                tb == (1200 * b + a) * bottom,
                ad == a * d,
        ;
        assert(b * (top * d) == tb * d) by (nonlinear_arith)
            requires
                tb == top * b,
        ;
        assert(b * ((1200 * d + sx) * bottom) == 1200 * (b * bottom * d) + (b * sx) * bottom)
            by (nonlinear_arith);
        lemma_cancel(b, top * d, (1200 * d + sx) * bottom);
        lemma_truncated_same_number(total@.0, total@.1, 1200 * d + s * (5 * d - n), d);
    }
    total.to_integer()
}

/// The approach rate under the hard-rock modifier: `ar` times 1.4, and no
/// more than ten.
pub fn ar_to_hr(ar: Rational32) -> (r: Rational32)
    requires
        ar.wf(),
        7 * magnitude(ar@.0) <= i32::MAX,
        5 * ar@.1 <= i32::MAX,
    ensures
        r.wf(),
        r == if 14 * ar@.0 < 100 * ar@.1 {
            Rational32::spec_new(14 * ar@.0, 10 * ar@.1)
        } else {
            Rational32::spec_new(10, 1)
        },
{
    let ghost n = ar@.0;
    let ghost d = ar@.1;
    let factor = Rational32::new(14, 10);
    proof {
        lemma_gcd_step(7, 5, 2);
        lemma_gcd_step(5, 2, 1);
        lemma_gcd_step(2, 1, 0);
        lemma_reduced_is(14, 10, 7, 5);
    }
    let hr_ar = ar.times(factor);
    let ten = Rational32::from_integer(10);
    proof {
        lemma_reduced(n * 7, d * 5);
        assert(same_ratio(n * 7, d * 5, 14 * n, 10 * d)) by (nonlinear_arith);
        Rational32::lemma_spec_new_same_number(n * 7, d * 5, 14 * n, 10 * d);
        assert((hr_ar@.0 * 1 < 10 * hr_ar@.1) == (14 * n < 100 * d)) by (nonlinear_arith)
            requires
                hr_ar@.0 * (d * 5) == (n * 7) * hr_ar@.1,
                hr_ar@.1 > 0,
                d > 0,
        ;
    }
    if hr_ar.less_than(&ten) {
        hr_ar
    } else {
        ten
    }
}

/// The approach rate under the easy modifier: half of `ar`.
pub fn ar_to_ez(ar: Rational32) -> (r: Rational32)
    requires
        ar.wf(),
        magnitude(ar@.0) <= i32::MAX,
        2 * ar@.1 <= i32::MAX,
    ensures
        r.wf(),
        r == Rational32::spec_new(ar@.0, 2 * ar@.1),
{
    let half = Rational32::new(1, 2);
    proof {
        lemma_gcd_step(1, 2, 1);
        lemma_gcd_step(2, 1, 0);
        lemma_reduced_is(1, 2, 1, 2);
        assert(ar@.0 * 1 == ar@.0 && ar@.1 * 2 == 2 * ar@.1);
    }
    ar.times(half)
}

} // verus!
