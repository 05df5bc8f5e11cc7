//! Exact fractions in lowest terms.
//!
//! A [`Rational`] is kept in lowest terms with a positive denominator, so two
//! of them are equal as values exactly when they are equal as numbers. The
//! reduction itself is done by `num`'s `Ratio`.

use num::rational::Ratio;
use vstd::arithmetic::div_mod::{
    lemma_fundamental_div_mod,
    lemma_mod_multiples_basic,
    lemma_small_mod,
    lemma_truncate_middle,
};
use vstd::prelude::*;

verus! {

/// Whether `k` divides `n`.
pub open spec fn divides(k: int, n: int) -> bool {
    k != 0 && n % k == 0
}

/// Whether `n / d` is a fraction in lowest terms: the denominator is
/// positive and no integer above one divides both parts.
pub open spec fn lowest_terms(n: int, d: int) -> bool {
    d > 0 && forall|k: int| k > 1 ==> !(#[trigger] divides(k, n) && divides(k, d))
}

/// Whether `n1 / d1` and `n2 / d2` are the same number.
pub open spec fn same_ratio(n1: int, d1: int, n2: int, d2: int) -> bool {
    n1 * d2 == n2 * d1
}

/// The magnitude of `n`.
pub open spec fn magnitude(n: int) -> nat {
    if n < 0 {
        (-n) as nat
    } else {
        n as nat
    }
}

/// The greatest common divisor, by Euclid's algorithm.
pub open spec fn gcd(a: nat, b: nat) -> nat
    decreases b,
{
    if b == 0 {
        a
    } else {
        gcd(b, a % b)
    }
}

/// The fraction `n / d` in lowest terms, as numerator and denominator.
pub open spec fn reduced(n: int, d: int) -> (int, int)
    recommends
        d != 0,
{
    let g = gcd(magnitude(n), magnitude(d)) as int;
    if d > 0 {
        (n / g, d / g)
    } else {
        ((-n) / g, (-d) / g)
    }
}

proof fn lemma_multiple(k: int, q: int)
    requires
        k > 0,
    ensures
        (k * q) % k == 0,
{
    lemma_mod_multiples_basic(q, k);
    assert(k * q == q * k) by (nonlinear_arith);
}

proof fn lemma_exact(x: int, k: int)
    requires
        k > 0,
        x % k == 0,
    ensures
        x == k * (x / k),
{
    lemma_fundamental_div_mod(x, k);
}

proof fn lemma_combination(k: int, x: int, q: int, y: int)
    requires
        k > 0,
        x % k == 0,
        y % k == 0,
    ensures
        (x * q + y) % k == 0,
        (y - x * q) % k == 0,
{
    lemma_exact(x, k);
    lemma_exact(y, k);
    let a = x / k;
    let b = y / k;
    assert(x * q + y == k * (a * q + b)) by (nonlinear_arith)
        requires
            x == k * a,
            y == k * b,
    ;
    assert(y - x * q == k * (b - a * q)) by (nonlinear_arith)
        requires
            x == k * a,
            y == k * b,
    ;
    lemma_multiple(k, a * q + b);
    lemma_multiple(k, b - a * q);
}

proof fn lemma_negation(k: int, n: int)
    requires
        k > 0,
    ensures
        (n % k == 0) == ((-n) % k == 0),
{
    if n % k == 0 {
        lemma_combination(k, n, 1, 0);
        lemma_small_mod(0, k as nat);
        assert(0 - n * 1 == -n);
    }
    if (-n) % k == 0 {
        lemma_small_mod(0, k as nat);
        lemma_combination(k, -n, 1, 0);
        assert(0 - (-n) * 1 == n);
    }
}

/// The greatest common divisor of two numbers, not both zero, is positive
/// and divides both.
pub proof fn lemma_gcd_divides(a: nat, b: nat)
    requires
        a > 0 || b > 0,
    ensures
        gcd(a, b) > 0,
        a % gcd(a, b) == 0,
        b % gcd(a, b) == 0,
    decreases b,
{
    if b == 0 {
        lemma_multiple(a as int, 1);
        lemma_small_mod(0, a);
        assert(a * 1 == a);
    } else {
        lemma_gcd_divides(b, a % b);
        let g = gcd(a, b) as int;
        lemma_fundamental_div_mod(a as int, b as int);
        lemma_combination(g, b as int, (a / b) as int, (a % b) as int);
    }
}

/// Every common divisor divides the greatest common divisor.
pub proof fn lemma_gcd_greatest(a: nat, b: nat, k: nat)
    requires
        k > 0,
        a % k == 0,
        b % k == 0,
    ensures
        gcd(a, b) % k == 0,
    decreases b,
{
    if b != 0 {
        lemma_fundamental_div_mod(a as int, b as int);
        lemma_combination(k as int, b as int, (a / b) as int, a as int);
        assert(a - b * (a / b) == a % b);
        lemma_gcd_greatest(b, a % b, k);
    }
}

/// Scaling both numbers scales their greatest common divisor.
pub proof fn lemma_gcd_scale(a: nat, b: nat, c: nat)
    requires
        c > 0,
    ensures
        gcd(a * c, b * c) == gcd(a, b) * c,
    decreases b,
{
    if b == 0 {
        assert(b * c == 0);
    } else {
        assert(b * c > 0) by (nonlinear_arith)
            requires
                b > 0,
                c > 0,
        ;
        lemma_truncate_middle(a as int, c as int, b as int);
        assert((a * c) % (b * c) == (a % b) * c) by (nonlinear_arith)
            requires
                (c * a) % (c * b) == c * (a % b),
        ;
        lemma_gcd_scale(b, a % b, c);
    }
}

/// A fraction in lowest terms has parts whose greatest common divisor is
/// one, in either order, and conversely.
pub proof fn lemma_lowest_terms_gcd(n: int, d: int)
    requires
        d > 0,
    ensures
        lowest_terms(n, d) <==> gcd(magnitude(n), d as nat) == 1,
        lowest_terms(n, d) <==> gcd(d as nat, magnitude(n)) == 1,
{
    let m = magnitude(n);
    let g1 = gcd(m, d as nat) as int;
    let g2 = gcd(d as nat, m) as int;
    lemma_gcd_divides(m, d as nat);
    lemma_gcd_divides(d as nat, m);
    lemma_negation(g1, n);
    lemma_negation(g2, n);
    if lowest_terms(n, d) {
        if g1 > 1 {
            assert(divides(g1, n) && divides(g1, d));
        }
        if g2 > 1 {
            assert(divides(g2, n) && divides(g2, d));
        }
    }
    if g1 == 1 || g2 == 1 {
        assert forall|k: int| k > 1 implies !(#[trigger] divides(k, n) && divides(k, d)) by {
            if divides(k, n) && divides(k, d) {
                lemma_negation(k, n);
                if g1 == 1 {
                    lemma_gcd_greatest(m, d as nat, k as nat);
                } else {
                    lemma_gcd_greatest(d as nat, m, k as nat);
                }
                lemma_small_mod(1, k as nat);
            }
        }
    }
}

/// If `a` shares no divisor with `b` and divides `b * c`, it divides `c`.
pub proof fn lemma_euclid(a: nat, b: nat, c: nat)
    requires
        a > 0,
        gcd(a, b) == 1,
        (b * c) % a == 0,
    ensures
        c % a == 0,
{
    if c > 0 {
        lemma_gcd_scale(a, b, c);
        lemma_multiple(a as int, c as int);
        lemma_gcd_greatest(a * c, b * c, a);
        assert(gcd(a, b) * c == c);
    } else {
        lemma_small_mod(0, a);
    }
}

proof fn lemma_divisor_bound(k: nat, m: nat)
    requires
        k > 0,
        m > 0,
        m % k == 0,
    ensures
        k <= m,
{
    if m < k {
        lemma_small_mod(m, k);
    }
}

/// Two fractions in lowest terms that are the same number have the same
/// numerator and the same denominator.
pub proof fn lemma_lowest_terms_unique(n1: int, d1: int, n2: int, d2: int)
    requires
        lowest_terms(n1, d1),
        lowest_terms(n2, d2),
        same_ratio(n1, d1, n2, d2),
    ensures
        n1 == n2,
        d1 == d2,
{
    let m1 = magnitude(n1);
    let m2 = magnitude(n2);
    lemma_lowest_terms_gcd(n1, d1);
    lemma_lowest_terms_gcd(n2, d2);
    assert(m1 * d2 == m2 * d1) by (nonlinear_arith)
        requires
            n1 * d2 == n2 * d1,
            d1 > 0,
            d2 > 0,
            m1 == magnitude(n1),
            m2 == magnitude(n2),
    ;
    lemma_multiple(d1, m2 as int);
    assert((m1 * (d2 as nat)) % (d1 as nat) == 0) by {
        assert(m1 * d2 == d1 * m2) by (nonlinear_arith)
            requires
                m1 * d2 == m2 * d1,
        ;
    }
    lemma_euclid(d1 as nat, m1, d2 as nat);
    lemma_multiple(d2, m1 as int);
    assert((m2 * (d1 as nat)) % (d2 as nat) == 0) by {
        assert(m2 * d1 == d2 * m1) by (nonlinear_arith)
            requires
                m1 * d2 == m2 * d1,
        ;
    }
    lemma_euclid(d2 as nat, m2, d1 as nat);
    lemma_divisor_bound(d1 as nat, d2 as nat);
    lemma_divisor_bound(d2 as nat, d1 as nat);
    assert(n1 == n2) by (nonlinear_arith)
        requires
            n1 * d2 == n2 * d1,
            d1 == d2,
            d1 > 0,
    ;
}

/// `reduced` gives the same number in lowest terms.
pub proof fn lemma_reduced(n: int, d: int)
    requires
        d != 0,
    ensures
        lowest_terms(reduced(n, d).0, reduced(n, d).1),
        same_ratio(reduced(n, d).0, reduced(n, d).1, n, d),
{
    let mn = magnitude(n);
    let md = magnitude(d);
    let g = gcd(mn, md) as int;
    lemma_gcd_divides(mn, md);
    lemma_negation(g, n);
    lemma_negation(g, d);
    let (sn, sd) = if d > 0 {
        (n, d)
    } else {
        (-n, -d)
    };
    let a = sn / g;
    let b = sd / g;
    lemma_exact(sn, g);
    lemma_exact(sd, g);
    assert(b > 0) by (nonlinear_arith)
        requires
            sd == g * b,
            sd > 0,
            g > 0,
    ;
    assert(a * d == n * b) by (nonlinear_arith)
        requires
            sn == g * a,
            sd == g * b,
            (sn == n && sd == d) || (sn == -n && sd == -d),
    ;
    let ma = magnitude(a);
    assert(mn == ma * g) by (nonlinear_arith)
        requires
            sn == g * a,
            g > 0,
            mn == magnitude(sn),
            ma == magnitude(a),
    ;
    assert(md == b * g) by (nonlinear_arith)
        requires
            sd == g * b,
            md == sd,
    ;
    lemma_gcd_scale(ma, b as nat, g as nat);
    assert(gcd(ma, b as nat) == 1) by (nonlinear_arith)
        requires
            gcd(ma, b as nat) * g == g,
            g > 0,
    ;
    lemma_lowest_terms_gcd(a, b);
}

/// The parts of a reduced fraction are no larger than those it came from.
pub proof fn lemma_reduced_bounds(n: int, d: int)
    requires
        d != 0,
    ensures
        magnitude(reduced(n, d).0) <= magnitude(n),
        0 < reduced(n, d).1 <= magnitude(d),
{
    let mn = magnitude(n);
    let md = magnitude(d);
    let g = gcd(mn, md) as int;
    lemma_gcd_divides(mn, md);
    lemma_negation(g, n);
    lemma_negation(g, d);
    lemma_reduced(n, d);
    let (sn, sd) = if d > 0 {
        (n, d)
    } else {
        (-n, -d)
    };
    lemma_exact(sn, g);
    lemma_exact(sd, g);
    let a = sn / g;
    let b = sd / g;
    assert(magnitude(a) <= mn && b <= md) by (nonlinear_arith)
        requires
            sn == g * a,
            sd == g * b,
            g >= 1,
            b > 0,
            mn == magnitude(sn),
            md == sd,
    ;
}

/// A fraction in lowest terms that is the same number as `n / d` is
/// `reduced(n, d)`.
pub proof fn lemma_reduced_unique(p: int, q: int, n: int, d: int)
    requires
        d != 0,
        lowest_terms(p, q),
        same_ratio(p, q, n, d),
    ensures
        (p, q) == reduced(n, d),
{
    lemma_reduced(n, d);
    let (a, b) = reduced(n, d);
    assert(p * b == a * q) by (nonlinear_arith)
        requires
            p * d == n * q,
            a * d == n * b,
            d != 0,
    ;
    lemma_lowest_terms_unique(p, q, a, b);
}

/// A positive factor of either side of an equation can be cancelled.
pub proof fn lemma_cancel(k: int, x: int, y: int)
    requires
        k != 0,
        k * x == k * y,
    ensures
        x == y,
{
    assert(x == y) by (nonlinear_arith)
        requires
            k != 0,
            k * x == k * y,
    ;
}

/// One step of Euclid's algorithm.
pub proof fn lemma_gcd_step(a: nat, b: nat, r: nat)
    requires
        b > 0,
        r == a % b,
    ensures
        gcd(a, b) == gcd(b, r),
{
}

/// `p / q` is the lowest-terms form of any fraction that is the same
/// number, where `p` and `q` have the greatest common divisor one.
pub proof fn lemma_reduced_is(n: int, d: int, p: int, q: int)
    requires
        d != 0,
        q > 0,
        same_ratio(p, q, n, d),
        gcd(magnitude(p), q as nat) == 1,
    ensures
        reduced(n, d) == (p, q),
{
    lemma_lowest_terms_gcd(p, q);
    lemma_reduced_unique(p, q, n, d);
}

/// The product of two positive numbers is positive.
pub proof fn lemma_positive_product(a: int, b: int)
    requires
        a > 0,
        b > 0,
    ensures
        a * b > 0,
{
    assert(a * b > 0) by (nonlinear_arith)
        requires
            a > 0,
            b > 0,
    ;
}

/// A whole number over one is in lowest terms, and is its own reduced form.
pub proof fn lemma_whole_is_reduced(n: int)
    ensures
        lowest_terms(n, 1),
        reduced(n, 1) == (n, 1int),
{
    assert forall|k: int| k > 1 implies !(#[trigger] divides(k, n) && divides(k, 1)) by {
        lemma_small_mod(1, k as nat);
    }
    assert(same_ratio(n, 1, n, 1));
    lemma_reduced_unique(n, 1, n, 1);
}

/// Two ways of writing the same number have the same reduced form.
pub proof fn lemma_reduced_same_number(n1: int, d1: int, n2: int, d2: int)
    requires
        d1 != 0,
        d2 != 0,
        same_ratio(n1, d1, n2, d2),
    ensures
        reduced(n1, d1) == reduced(n2, d2),
{
    lemma_reduced(n1, d1);
    let (p, q) = reduced(n1, d1);
    assert(same_ratio(p, q, n2, d2)) by (nonlinear_arith)
        requires
            p * d1 == n1 * q,
            n1 * d2 == n2 * d1,
            d1 != 0,
    ;
    lemma_reduced_unique(p, q, n2, d2);
}

/// An exact fraction of 64-bit parts, in lowest terms.
#[derive(Clone, Copy, Debug, PartialEq, Eq, Hash, Structural)]
pub struct Rational {
    pub(crate) numer: i64,
    pub(crate) denom: i64,
}

impl View for Rational {
    type V = (int, int);

    /// The numerator and the denominator.
    open(crate) spec fn view(&self) -> (int, int) {
        (self.numer as int, self.denom as int)
    }
}

/// Calls `Ratio::<i64>::new`, which puts `numer / denom` into lowest terms
/// with a positive denominator. It panics on a zero denominator, and it
/// negates both parts where the denominator is negative, which the smallest
/// integer does not survive: those inputs are left out.
#[verifier::external_body]
fn ratio_new_i64(numer: i64, denom: i64) -> (r: (i64, i64))
    requires
        denom != 0,
        denom < 0 ==> numer != i64::MIN && denom != i64::MIN,
    ensures
        lowest_terms(r.0 as int, r.1 as int),
        same_ratio(r.0 as int, r.1 as int, numer as int, denom as int),
{
    let ratio = Ratio::new(numer, denom);
    (*ratio.numer(), *ratio.denom())
}

impl Rational {
    /// Whether the fraction is in lowest terms with a positive denominator.
    pub open spec fn wf(&self) -> bool {
        lowest_terms(self@.0, self@.1)
    }

    /// The fraction `n / d` in lowest terms.
    pub open(crate) spec fn spec_new(n: int, d: int) -> Rational
        recommends
            d != 0,
    {
        Rational { numer: reduced(n, d).0 as i64, denom: reduced(n, d).1 as i64 }
    }

    /// The fraction `numer / denom`, reduced.
    pub fn new(numer: i64, denom: i64) -> (r: Rational)
        requires
            denom != 0,
            denom < 0 ==> numer != i64::MIN && denom != i64::MIN,
        ensures
            r.wf(),
            r == Rational::spec_new(numer as int, denom as int),
            r@ == reduced(numer as int, denom as int),
    {
        let (n, d) = ratio_new_i64(numer, denom);
        proof {
            lemma_reduced_unique(n as int, d as int, numer as int, denom as int);
        }
        Rational { numer: n, denom: d }
    }

    /// The whole number `n`.
    pub fn from_integer(n: i64) -> (r: Rational)
        ensures
            r.wf(),
            r@ == (n as int, 1int),
            r == Rational::spec_new(n as int, 1),
    {
        proof {
            lemma_whole_is_reduced(n as int);
        }
        Rational { numer: n, denom: 1 }
    }

    /// The numerator.
    pub fn numer(&self) -> (n: i64)
        ensures
            n == self@.0,
    {
        self.numer
    }

    /// The denominator.
    pub fn denom(&self) -> (d: i64)
        ensures
            d == self@.1,
    {
        self.denom
    }

    /// Whether this fraction is the smaller number.
    pub fn less_than(&self, other: &Rational) -> (r: bool)
        requires
            self.wf(),
            other.wf(),
        ensures
            r == (self@.0 * other@.1 < other@.0 * self@.1),
    {
        let left_numer = self.numer as i128;
        let left_denom = self.denom as i128;
        let right_numer = other.numer as i128;
        let right_denom = other.denom as i128;
        assert(-0x4000_0000_0000_0000_0000_0000_0000_0000 <= left_numer * right_denom
            <= 0x4000_0000_0000_0000_0000_0000_0000_0000) by (nonlinear_arith)
            requires
                -0x8000_0000_0000_0000 <= left_numer <= 0x8000_0000_0000_0000,
                0 <= right_denom <= 0x8000_0000_0000_0000,
        ;
        assert(-0x4000_0000_0000_0000_0000_0000_0000_0000 <= right_numer * left_denom
            <= 0x4000_0000_0000_0000_0000_0000_0000_0000) by (nonlinear_arith)
            requires
                -0x8000_0000_0000_0000 <= right_numer <= 0x8000_0000_0000_0000,
                0 <= left_denom <= 0x8000_0000_0000_0000,
        ;
        left_numer * right_denom < right_numer * left_denom
    }

    /// Equality of two fractions in lowest terms is equality of the numbers
    /// they stand for.
    pub proof fn lemma_equal_iff_same_number(a: Rational, b: Rational)
        requires
            a.wf(),
            b.wf(),
        ensures
            (a == b) <==> same_ratio(a@.0, a@.1, b@.0, b@.1),
    {
        if same_ratio(a@.0, a@.1, b@.0, b@.1) {
            lemma_lowest_terms_unique(a@.0, a@.1, b@.0, b@.1);
        }
    }

    /// Two ways of writing the same number give the same fraction.
    pub proof fn lemma_spec_new_same_number(n1: int, d1: int, n2: int, d2: int)
        requires
            d1 != 0,
            d2 != 0,
            same_ratio(n1, d1, n2, d2),
        ensures
            Rational::spec_new(n1, d1) == Rational::spec_new(n2, d2),
    {
        lemma_reduced_same_number(n1, d1, n2, d2);
    }
}

/// The quotient of `n` by a positive `d`, rounded towards zero.
pub open spec fn truncated(n: int, d: int) -> int
    recommends
        d > 0,
{
    if n >= 0 {
        n / d
    } else {
        -((-n) / d)
    }
}

/// Two ways of writing the same number round to the same integer.
pub proof fn lemma_truncated_same_number(n1: int, d1: int, n2: int, d2: int)
    requires
        d1 > 0,
        d2 > 0,
        same_ratio(n1, d1, n2, d2),
    ensures
        truncated(n1, d1) == truncated(n2, d2),
{
    let (a, c) = if n1 >= 0 {
        (n1, n2)
    } else {
        (-n1, -n2)
    };
    assert(a * d2 == c * d1 && a >= 0) by (nonlinear_arith)
        requires
            n1 * d2 == n2 * d1,
            (a == n1 && c == n2 && n1 >= 0) || (a == -n1 && c == -n2 && n1 < 0),
    ;
    assert(c >= 0 && (n1 < 0 ==> n2 < 0) && (n1 >= 0 ==> n2 >= 0)) by (nonlinear_arith)
        requires
            a * d2 == c * d1,
            n1 * d2 == n2 * d1,
            a >= 0,
            d1 > 0,
            d2 > 0,
            (a == n1 && c == n2 && n1 >= 0) || (a == -n1 && c == -n2 && n1 < 0),
    ;
    let q = a / d1;
    lemma_fundamental_div_mod(a, d1);
    lemma_fundamental_div_mod(c, d2);
    let r = c / d2;
    assert(q == r) by (nonlinear_arith)
        requires
            a == d1 * q + a % d1,
            0 <= a % d1 < d1,
            c == d2 * r + c % d2,
            0 <= c % d2 < d2,
            a * d2 == c * d1,
            d1 > 0,
            d2 > 0,
    ;
}

/// An exact fraction of 32-bit parts, in lowest terms.
#[derive(Clone, Copy, Debug, PartialEq, Eq, Hash, Structural)]
pub struct Rational32 {
    pub(crate) numer: i32,
    pub(crate) denom: i32,
}

impl View for Rational32 {
    type V = (int, int);

    /// The numerator and the denominator.
    open(crate) spec fn view(&self) -> (int, int) {
        (self.numer as int, self.denom as int)
    }
}

/// Calls `Ratio::<i32>::new`, which puts `numer / denom` into lowest terms
/// with a positive denominator. It panics on a zero denominator, and it
/// negates both parts where the denominator is negative, which the smallest
/// integer does not survive: those inputs are left out.
#[verifier::external_body]
fn ratio_new_i32(numer: i32, denom: i32) -> (r: (i32, i32))
    requires
        denom != 0,
        denom < 0 ==> numer != i32::MIN && denom != i32::MIN,
    ensures
        lowest_terms(r.0 as int, r.1 as int),
        same_ratio(r.0 as int, r.1 as int, numer as int, denom as int),
{
    let ratio = Ratio::new(numer, denom);
    (*ratio.numer(), *ratio.denom())
}

/// Calls the `*` of two `Ratio<i32>`, which gives the product in lowest
/// terms. It multiplies numerator by numerator and denominator by
/// denominator after cancelling across, so neither product may leave the
/// 32-bit range.
#[verifier::external_body]
fn ratio_mul_i32(a: (i32, i32), b: (i32, i32)) -> (r: (i32, i32))
    requires
        a.1 > 0,
        b.1 > 0,
        -i32::MAX <= a.0 * b.0 <= i32::MAX,
        a.1 * b.1 <= i32::MAX,
    ensures
        lowest_terms(r.0 as int, r.1 as int),
        same_ratio(r.0 as int, r.1 as int, a.0 * b.0, a.1 * b.1),
{
    let product = Ratio::new_raw(a.0, a.1) * Ratio::new_raw(b.0, b.1);
    (*product.numer(), *product.denom())
}

/// Calls the `-` of two `Ratio<i32>`, which gives the difference in lowest
/// terms. It brings both to the least common denominator, so neither that
/// denominator nor the two scaled numerators and their difference may leave
/// the 32-bit range.
#[verifier::external_body]
fn ratio_sub_i32(a: (i32, i32), b: (i32, i32)) -> (r: (i32, i32))
    requires
        a.1 > 0,
        b.1 > 0,
        a.1 * b.1 <= i32::MAX,
        magnitude(a.0 * b.1) + magnitude(b.0 * a.1) <= i32::MAX,
    ensures
        lowest_terms(r.0 as int, r.1 as int),
        same_ratio(r.0 as int, r.1 as int, a.0 * b.1 - b.0 * a.1, a.1 * b.1),
{
    let difference = Ratio::new_raw(a.0, a.1) - Ratio::new_raw(b.0, b.1);
    (*difference.numer(), *difference.denom())
}

/// Calls the `+` of two `Ratio<i32>`, which gives the sum in lowest terms.
/// It brings both to the least common denominator, so neither that
/// denominator nor the two scaled numerators and their sum may leave the
/// 32-bit range.
#[verifier::external_body]
fn ratio_add_i32(a: (i32, i32), b: (i32, i32)) -> (r: (i32, i32))
    requires
        a.1 > 0,
        b.1 > 0,
        a.1 * b.1 <= i32::MAX,
        magnitude(a.0 * b.1) + magnitude(b.0 * a.1) <= i32::MAX,
    ensures
        lowest_terms(r.0 as int, r.1 as int),
        same_ratio(r.0 as int, r.1 as int, a.0 * b.1 + b.0 * a.1, a.1 * b.1),
{
    let sum = Ratio::new_raw(a.0, a.1) + Ratio::new_raw(b.0, b.1);
    (*sum.numer(), *sum.denom())
}

/// Calls the `<` of two `Ratio<i32>`, which orders them as numbers. With
/// positive denominators it divides by nothing but those and their
/// remainders.
#[verifier::external_body]
fn ratio_lt_i32(a: (i32, i32), b: (i32, i32)) -> (r: bool)
    requires
        a.1 > 0,
        b.1 > 0,
    ensures
        r == (a.0 * b.1 < b.0 * a.1),
{
    Ratio::new_raw(a.0, a.1) < Ratio::new_raw(b.0, b.1)
}

/// Calls `Ratio::<i32>::to_integer`, which divides the numerator by the
/// denominator and rounds towards zero.
#[verifier::external_body]
fn ratio_to_integer_i32(a: (i32, i32)) -> (r: i32)
    requires
        a.1 > 0,
    ensures
        r == truncated(a.0 as int, a.1 as int),
{
    Ratio::new_raw(a.0, a.1).to_integer()
}

impl Rational32 {
    /// Whether the fraction is in lowest terms with a positive denominator.
    pub open spec fn wf(&self) -> bool {
        lowest_terms(self@.0, self@.1)
    }

    /// The fraction `n / d` in lowest terms.
    pub open(crate) spec fn spec_new(n: int, d: int) -> Rational32
        recommends
            d != 0,
    {
        Rational32 { numer: reduced(n, d).0 as i32, denom: reduced(n, d).1 as i32 }
    }

    /// The fraction `numer / denom`, reduced.
    pub fn new(numer: i32, denom: i32) -> (r: Rational32)
        requires
            denom != 0,
            denom < 0 ==> numer != i32::MIN && denom != i32::MIN,
        ensures
            r.wf(),
            r == Rational32::spec_new(numer as int, denom as int),
            r@ == reduced(numer as int, denom as int),
    {
        let (n, d) = ratio_new_i32(numer, denom);
        proof {
            lemma_reduced_unique(n as int, d as int, numer as int, denom as int);
        }
        Rational32 { numer: n, denom: d }
    }

    /// The whole number `n`.
    pub fn from_integer(n: i32) -> (r: Rational32)
        ensures
            r.wf(),
            r@ == (n as int, 1int),
            r == Rational32::spec_new(n as int, 1),
    {
        proof {
            lemma_whole_is_reduced(n as int);
        }
        Rational32 { numer: n, denom: 1 }
    }

    /// The numerator.
    pub fn numer(&self) -> (n: i32)
        ensures
            n == self@.0,
    {
        self.numer
    }

    /// The denominator.
    pub fn denom(&self) -> (d: i32)
        ensures
            d == self@.1,
    {
        self.denom
    }

    /// The product of two fractions.
    pub fn times(self, other: Rational32) -> (r: Rational32)
        requires
            self.wf(),
            other.wf(),
            -i32::MAX <= self@.0 * other@.0 <= i32::MAX,
            self@.1 * other@.1 <= i32::MAX,
        ensures
            r.wf(),
            r == Rational32::spec_new(self@.0 * other@.0, self@.1 * other@.1),
            r@ == reduced(self@.0 * other@.0, self@.1 * other@.1),
    {
        let (n, d) = ratio_mul_i32((self.numer, self.denom), (other.numer, other.denom));
        proof {
            lemma_positive_product(self@.1, other@.1);
            lemma_reduced_unique(
                n as int,
                d as int,
                self@.0 * other@.0,
                self@.1 * other@.1,
            );
        }
        Rational32 { numer: n, denom: d }
    }

    /// The difference of two fractions.
    pub fn minus(self, other: Rational32) -> (r: Rational32)
        requires
            self.wf(),
            other.wf(),
            self@.1 * other@.1 <= i32::MAX,
            magnitude(self@.0 * other@.1) + magnitude(other@.0 * self@.1) <= i32::MAX,
        ensures
            r.wf(),
            r == Rational32::spec_new(
                self@.0 * other@.1 - other@.0 * self@.1,
                self@.1 * other@.1,
            ),
            r@ == reduced(self@.0 * other@.1 - other@.0 * self@.1, self@.1 * other@.1),
    {
        let (n, d) = ratio_sub_i32((self.numer, self.denom), (other.numer, other.denom));
        proof {
            lemma_positive_product(self@.1, other@.1);
            lemma_reduced_unique(
                n as int,
                d as int,
                self@.0 * other@.1 - other@.0 * self@.1,
                self@.1 * other@.1,
            );
        }
        Rational32 { numer: n, denom: d }
    }

    /// The sum of two fractions.
    pub fn plus(self, other: Rational32) -> (r: Rational32)
        requires
            self.wf(),
            other.wf(),
            self@.1 * other@.1 <= i32::MAX,
            magnitude(self@.0 * other@.1) + magnitude(other@.0 * self@.1) <= i32::MAX,
        ensures
            r.wf(),
            r == Rational32::spec_new(
                self@.0 * other@.1 + other@.0 * self@.1,
                self@.1 * other@.1,
            ),
            r@ == reduced(self@.0 * other@.1 + other@.0 * self@.1, self@.1 * other@.1),
    {
        let (n, d) = ratio_add_i32((self.numer, self.denom), (other.numer, other.denom));
        proof {
            lemma_positive_product(self@.1, other@.1);
            lemma_reduced_unique(
                n as int,
                d as int,
                self@.0 * other@.1 + other@.0 * self@.1,
                self@.1 * other@.1,
            );
        }
        Rational32 { numer: n, denom: d }
    }

    /// Whether this fraction is the smaller number.
    pub fn less_than(&self, other: &Rational32) -> (r: bool)
        requires
            self.wf(),
            other.wf(),
        ensures
            r == (self@.0 * other@.1 < other@.0 * self@.1),
    {
        ratio_lt_i32((self.numer, self.denom), (other.numer, other.denom))
    }

    /// The fraction rounded towards zero.
    pub fn to_integer(&self) -> (r: i32)
        requires
            self.wf(),
        ensures
            r == truncated(self@.0, self@.1),
    {
        ratio_to_integer_i32((self.numer, self.denom))
    }

    /// Equality of two fractions in lowest terms is equality of the numbers
    /// they stand for.
    pub proof fn lemma_equal_iff_same_number(a: Rational32, b: Rational32)
        requires
            a.wf(),
            b.wf(),
        ensures
            (a == b) <==> same_ratio(a@.0, a@.1, b@.0, b@.1),
    {
        if same_ratio(a@.0, a@.1, b@.0, b@.1) {
            lemma_lowest_terms_unique(a@.0, a@.1, b@.0, b@.1);
        }
    }

    /// Two ways of writing the same number give the same fraction.
    pub proof fn lemma_spec_new_same_number(n1: int, d1: int, n2: int, d2: int)
        requires
            d1 != 0,
            d2 != 0,
            same_ratio(n1, d1, n2, d2),
        ensures
            Rational32::spec_new(n1, d1) == Rational32::spec_new(n2, d2),
            reduced(n1, d1) == reduced(n2, d2),
    {
        lemma_reduced_same_number(n1, d1, n2, d2);
    }
}

} // verus!
