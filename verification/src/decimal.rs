//! Decimal literals as exact fractions.

use crate::error::{failure, plain, DecodeError, ErrorKind, Failure};
use crate::rational::Rational;
use crate::text::{
    all_digits,
    digits_value,
    is_digit,
    lemma_split_last,
    lemma_split_nonempty,
    parse_digits,
    split,
    split_fields,
    views,
    MAGNITUDE_LIMIT,
    MINUS,
    POINT,
};
use vstd::prelude::*;
use vstd::slice::slice_subrange;
use vstd::string::StringSliceAdditionalSpecFns;

verus! {

/// Ten to the power `k`.
pub open spec fn pow10(k: nat) -> nat
    decreases k,
{
    if k == 0 {
        1
    } else {
        10 * pow10((k - 1) as nat)
    }
}

/// What a decimal literal writes: whether it starts with a minus sign, the
/// signed integer before the point, the digits after it read as a number,
/// and ten to the number of those digits.
pub struct DecimalParts {
    pub negative: bool,
    pub integer: int,
    pub fraction: nat,
    pub scale: nat,
}

/// The parts of the literal `s`, which has the shape `-?[0-9]+(\.[0-9]+)?`
/// with nothing before or after it; `None` for any other text.
pub open spec fn decimal_parts(s: Seq<u8>) -> Option<DecimalParts> {
    let negative = s.len() > 0 && s[0] == MINUS;
    let body = if negative {
        s.drop_first()
    } else {
        s
    };
    let parts = split(body, POINT);
    let whole = parts[0];
    if whole.len() == 0 || !all_digits(whole) {
        None
    } else {
        let integer = if negative {
            -(digits_value(whole) as int)
        } else {
            digits_value(whole) as int
        };
        if parts.len() == 1 {
            Some(DecimalParts { negative, integer, fraction: 0, scale: 1 })
        } else if parts.len() == 2 && parts[1].len() > 0 && all_digits(parts[1]) {
            Some(
                DecimalParts {
                    negative,
                    integer,
                    fraction: digits_value(parts[1]),
                    scale: pow10(parts[1].len()),
                },
            )
        } else {
            None
        }
    }
}

/// Whether `x` is a 64-bit integer.
pub open spec fn fits_i64(x: int) -> bool {
    i64::MIN <= x <= i64::MAX
}

/// The numerator that the parts give before reduction: the integer part
/// scaled, plus the fractional digits as written.
pub open spec fn raw_numerator(p: DecimalParts) -> int {
    p.integer * p.scale + p.fraction
}

/// Whether every quantity on the way to the fraction is a 64-bit integer.
pub open spec fn parts_fit(p: DecimalParts) -> bool {
    fits_i64(p.scale as int) && fits_i64(p.integer * p.scale) && fits_i64(raw_numerator(p))
}

/// The fraction that the decimal literal `s` stands for, or the failure to
/// read it.
pub open spec fn spec_decimal(s: Seq<u8>) -> Result<Rational, Failure> {
    match decimal_parts(s) {
        Some(p) => if parts_fit(p) {
            Ok(Rational::spec_new(raw_numerator(p), p.scale as int))
        } else {
            Err(failure(ErrorKind::NumericFormatError, s))
        },
        None => Err(failure(ErrorKind::NumericFormatError, s)),
    }
}

/// The numerator that the parts give where the sign belongs to the whole
/// literal: the fractional digits go the way of the sign.
pub open spec fn signed_numerator(p: DecimalParts) -> int {
    if p.negative {
        p.integer * p.scale - p.fraction
    } else {
        p.integer * p.scale + p.fraction
    }
}

/// Whether every quantity on the way to the signed fraction is a 64-bit
/// integer.
pub open spec fn signed_parts_fit(p: DecimalParts) -> bool {
    fits_i64(p.scale as int) && fits_i64(p.integer * p.scale) && fits_i64(signed_numerator(p))
}

/// The number that the decimal literal `s` writes, its sign taken for the
/// whole literal: `-66.67` is minus 6667 hundredths. This is how a length
/// is read.
pub open spec fn spec_signed_decimal(s: Seq<u8>) -> Result<Rational, Failure> {
    match decimal_parts(s) {
        Some(p) => if signed_parts_fit(p) {
            Ok(Rational::spec_new(signed_numerator(p), p.scale as int))
        } else {
            Err(failure(ErrorKind::NumericFormatError, s))
        },
        None => Err(failure(ErrorKind::NumericFormatError, s)),
    }
}

/// Which of the two readings of a decimal literal is asked for.
pub open spec fn spec_reading(s: Seq<u8>, whole_sign: bool) -> Result<Rational, Failure> {
    if whole_sign {
        spec_signed_decimal(s)
    } else {
        spec_decimal(s)
    }
}

/// Powers of ten grow with the exponent.
pub proof fn lemma_pow10_monotone(j: nat, k: nat)
    requires
        j <= k,
    ensures
        0 < pow10(j) <= pow10(k),
    decreases k,
{
    if j < k {
        lemma_pow10_monotone(j, (k - 1) as nat);
    } else if k > 0 {
        lemma_pow10_monotone((j - 1) as nat, (k - 1) as nat);
    }
}

/// A run of `k` digits writes a number below ten to the `k`.
pub proof fn lemma_digits_value_bound(s: Seq<u8>)
    requires
        all_digits(s),
    ensures
        digits_value(s) < pow10(s.len()),
    decreases s.len(),
{
    if s.len() > 0 {
        assert(is_digit(s[s.len() - 1]));
        assert(all_digits(s.drop_last())) by {
            assert forall|i: int| 0 <= i < s.drop_last().len() implies is_digit(
                #[trigger] s.drop_last()[i],
            ) by {
                assert(s.drop_last()[i] == s[i]);
            }
        }
        lemma_digits_value_bound(s.drop_last());
    }
}

/// A literal whose integer part is no 64-bit integer does not fit.
proof fn lemma_integer_must_fit(p: DecimalParts)
    requires
        p.scale >= 1,
        !fits_i64(p.integer),
    ensures
        !parts_fit(p),
        !signed_parts_fit(p),
{
    assert(!fits_i64(p.integer * p.scale)) by (nonlinear_arith)
        requires
            p.scale >= 1,
            p.integer > 9223372036854775807 || p.integer < -9223372036854775808,
    ;
}

/// The scale of a literal is at least one.
proof fn lemma_scale_positive(s: Seq<u8>)
    requires
        decimal_parts(s) is Some,
    ensures
        decimal_parts(s)->0.scale >= 1,
{
    let negative = s.len() > 0 && s[0] == MINUS;
    let body = if negative {
        s.drop_first()
    } else {
        s
    };
    let parts = split(body, POINT);
    if parts.len() == 2 {
        lemma_pow10_monotone(0, parts[1].len());
    }
}

/// In the signed reading a minus sign negates the whole literal: the
/// literal with the sign before it writes the numerator of the literal
/// without, negated, over the same scale.
pub proof fn lemma_sign_negates_the_whole(body: Seq<u8>)
    requires
        decimal_parts(body) is Some,
        body[0] != MINUS,
    ensures
        decimal_parts(seq![MINUS] + body) is Some,
        decimal_parts(seq![MINUS] + body)->0.scale == decimal_parts(body)->0.scale,
        signed_numerator(decimal_parts(seq![MINUS] + body)->0) == -signed_numerator(
            decimal_parts(body)->0,
        ),
{
    let signed = seq![MINUS] + body;
    assert(signed.drop_first() =~= body);
    assert(signed[0] == MINUS);
    let p = decimal_parts(body)->0;
    let q = decimal_parts(signed)->0;
    assert(q.integer == -p.integer);
    assert(q.integer * q.scale - q.fraction == -(p.integer * p.scale + p.fraction))
        by (nonlinear_arith)
        requires
            q.integer == -p.integer,
            q.scale == p.scale,
            q.fraction == p.fraction,
    ;
}

/// A field that does not end in a digit writes no decimal.
pub proof fn lemma_decimal_ends_in_digit(s: Seq<u8>)
    requires
        s.len() > 0,
        !is_digit(s.last()),
    ensures
        decimal_parts(s) is None,
        spec_decimal(s) is Err,
        spec_signed_decimal(s) is Err,
{
    let negative = s[0] == MINUS;
    let body = if negative {
        s.drop_first()
    } else {
        s
    };
    lemma_split_nonempty(body, POINT);
    if body.len() > 0 {
        assert(body.last() == s.last());
        lemma_split_nonempty(body.drop_last(), POINT);
        let parts = split(body, POINT);
        let last = parts.last();
        if body.last() != POINT {
            lemma_split_last(body, POINT);
            assert(!is_digit(last[last.len() - 1]));
        }
    }
}

fn decimal_failure(s: &[u8]) -> (r: Result<Rational, DecodeError>)
    ensures
        plain(r) == Err::<Rational, Failure>(failure(ErrorKind::NumericFormatError, s@)),
{
    Err(DecodeError::new(ErrorKind::NumericFormatError, s))
}

/// Ten to the power `k`, or `None` where that is no 64-bit integer.
pub fn power_of_ten(k: usize) -> (r: Option<i64>)
    ensures
        r is Some <==> pow10(k as nat) <= i64::MAX,
        r is Some ==> r->0 == pow10(k as nat),
{
    let mut scale: i64 = 1;
    let mut i: usize = 0;
    while i < k
        invariant
            i <= k,
            scale == pow10(i as nat),
            scale > 0,
        decreases k - i,
    {
        match scale.checked_mul(10) {
            None => {
                proof {
                    lemma_pow10_monotone((i + 1) as nat, k as nat);
                }
                return None;
            },
            Some(next) => {
                scale = next;
            },
        }
        i = i + 1;
    }
    Some(scale)
}

/// Reads a decimal literal of the shape `-?[0-9]+(\.[0-9]+)?` as an exact
/// fraction in lowest terms. Nothing is trimmed and nothing is rounded.
///
/// The numerator is the integer part times ten to the number of fractional
/// digits, plus the fractional digits as written.
pub fn decode_decimal(s: &[u8]) -> (r: Result<Rational, DecodeError>)
    ensures
        plain(r) == spec_decimal(s@),
        r is Ok ==> r->Ok_0.wf(),
{
    read_decimal(s, false)
}

/// Reads a decimal literal of the shape `-?[0-9]+(\.[0-9]+)?` as an exact
/// fraction in lowest terms, the sign taken for the whole literal. Nothing
/// is trimmed and nothing is rounded.
pub fn decode_signed_decimal(s: &[u8]) -> (r: Result<Rational, DecodeError>)
    ensures
        plain(r) == spec_signed_decimal(s@),
        r is Ok ==> r->Ok_0.wf(),
{
    read_decimal(s, true)
}

/// Reads a decimal literal in one of its two readings.
fn read_decimal(s: &[u8], whole_sign: bool) -> (r: Result<Rational, DecodeError>)
    ensures
        plain(r) == spec_reading(s@, whole_sign),
        r is Ok ==> r->Ok_0.wf(),
{
    let n = s.len();
    let negative = n > 0 && s[0] == MINUS;
    let start: usize = if negative {
        1
    } else {
        0
    };
    let body = slice_subrange(s, start, n);
    proof {
        if negative {
            assert(body@ =~= s@.drop_first());
        } else {
            assert(body@ =~= s@);
        }
        lemma_split_nonempty(body@, POINT);
    }
    let parts = split_fields(body, POINT);
    assert(views(parts@).len() == parts@.len());
    assert(views(parts@)[0] == parts@[0]@);
    let whole = parts[0];
    let magnitude = match parse_digits(whole) {
        None => {
            proof {
                if decimal_parts(s@) is Some {
                    lemma_scale_positive(s@);
                    lemma_integer_must_fit(decimal_parts(s@)->0);
                }
            }
            return decimal_failure(s);
        },
        Some(v) => v,
    };
    let integer: i64 = if negative {
        if magnitude == MAGNITUDE_LIMIT {
            i64::MIN
        } else {
            -(magnitude as i64)
        }
    } else if magnitude > 9223372036854775807 {
        proof {
            if decimal_parts(s@) is Some {
                lemma_scale_positive(s@);
                lemma_integer_must_fit(decimal_parts(s@)->0);
            }
        }
        return decimal_failure(s);
    } else {
        magnitude as i64
    };
    if parts.len() == 1 {
        let r = Rational::from_integer(integer);
        assert(raw_numerator(decimal_parts(s@)->0) == integer && signed_numerator(
            decimal_parts(s@)->0,
        ) == integer) by (nonlinear_arith)
            requires
                decimal_parts(s@)->0.integer == integer,
                decimal_parts(s@)->0.scale == 1,
                decimal_parts(s@)->0.fraction == 0,
        ;
        return Ok(r);
    }
    if parts.len() != 2 {
        return decimal_failure(s);
    }
    assert(views(parts@)[1] == parts@[1]@);
    let frac = parts[1];
    let scale = match power_of_ten(frac.len()) {
        None => {
            return decimal_failure(s);
        },
        Some(v) => v,
    };
    let fraction = match parse_digits(frac) {
        None => {
            proof {
                if all_digits(frac@) {
                    lemma_digits_value_bound(frac@);
                }
            }
            return decimal_failure(s);
        },
        Some(v) => v,
    };
    proof {
        lemma_digits_value_bound(frac@);
    }
    let scaled = match integer.checked_mul(scale) {
        None => {
            return decimal_failure(s);
        },
        Some(v) => v,
    };
    let sum = if whole_sign && negative {
        scaled.checked_sub(fraction as i64)
    } else {
        scaled.checked_add(fraction as i64)
    };
    let numer = match sum {
        None => {
            return decimal_failure(s);
        },
        Some(v) => v,
    };
    Ok(Rational::new(numer, scale))
}

/// Reads a decimal literal as an exact fraction; see [`decode_decimal`].
pub fn decimal_to_ratio(decimal: &str) -> (r: Result<Rational, DecodeError>)
    ensures
        plain(r) == spec_decimal(decimal.spec_bytes()),
        r is Ok ==> r->Ok_0.wf(),
{
    decode_decimal(decimal.as_bytes())
}

} // verus!
