//! Exact rational scalars.
//!
//! Every scalar the solver computes with is a fraction of two 64-bit
//! integers with a positive denominator.  Arithmetic is exact: each
//! operation reduces its result to lowest terms and returns `None` when
//! even the reduced form does not fit, so a stored [`Ratio`] never silently
//! deviates from the mathematical rational it stands for.
//!
//! Specifications speak about [`Rat`], the unbounded numerator/denominator
//! pair, compared and combined by cross-multiplication.

use vstd::prelude::*;

verus! {

use vstd::arithmetic::div_mod::{
    lemma_fundamental_div_mod,
    lemma_add_mod_noop,
    lemma_mod_multiples_basic,
    lemma_mod_self_0,
    lemma_small_mod,
    lemma_div_multiples_vanish,
};
use vstd::math::abs;

/// A rational number in a fixed-width representation.
///
/// Well-formed values ([`Ratio::wf`]) have a positive denominator; values
/// produced by the operations here are additionally in lowest terms.
#[derive(Clone, Copy, Debug, PartialEq, Eq, Structural)]
pub struct Ratio {
    pub num: i64,
    pub den: i64,
}

/// A mathematical rational in specifications: an unbounded pair.
pub ghost struct Rat {
    pub n: int,
    pub d: int,
}

/// A specification-level rational is valid when its denominator is positive.
pub open spec fn rat_wf(a: Rat) -> bool {
    a.d > 0
}

/// Value equality of two rationals, by cross-multiplication.
pub open spec fn rat_eq(a: Rat, b: Rat) -> bool {
    a.n * b.d == b.n * a.d
}

/// `a <= b` as rational values (assuming positive denominators).
pub open spec fn rat_le(a: Rat, b: Rat) -> bool {
    a.n * b.d <= b.n * a.d
}

/// `a < b` as rational values (assuming positive denominators).
pub open spec fn rat_lt(a: Rat, b: Rat) -> bool {
    a.n * b.d < b.n * a.d
}

pub open spec fn rat_zero() -> Rat {
    Rat { n: 0, d: 1 }
}

pub open spec fn rat_one() -> Rat {
    Rat { n: 1, d: 1 }
}

pub open spec fn rat_add(a: Rat, b: Rat) -> Rat {
    Rat { n: a.n * b.d + b.n * a.d, d: a.d * b.d }
}

pub open spec fn rat_sub(a: Rat, b: Rat) -> Rat {
    Rat { n: a.n * b.d - b.n * a.d, d: a.d * b.d }
}

pub open spec fn rat_mul(a: Rat, b: Rat) -> Rat {
    Rat { n: a.n * b.n, d: a.d * b.d }
}

/// `a / b`; the sign of the divisor's numerator is moved into the result's
/// numerator so that the denominator stays positive whenever `b.n != 0`.
pub open spec fn rat_div(a: Rat, b: Rat) -> Rat {
    if b.n >= 0 {
        Rat { n: a.n * b.d, d: a.d * b.n }
    } else {
        Rat { n: -(a.n * b.d), d: -(a.d * b.n) }
    }
}

pub open spec fn rat_neg(a: Rat) -> Rat {
    Rat { n: -a.n, d: a.d }
}

/// The greatest common divisor, by Euclid's algorithm.
pub open spec fn gcd(a: nat, b: nat) -> nat
    decreases b,
{
    if b == 0 {
        a
    } else {
        gcd(b, a % b)
    }
}

/// The fully reduced rational with the value `n / d` (meaningful for `d > 0`).
pub open spec fn canon(n: int, d: int) -> Rat {
    let g = gcd(abs(n), d as nat) as int;
    Rat { n: n / g, d: d / g }
}

/// The fully reduced form of a rational value.
pub open spec fn canon_of(v: Rat) -> Rat {
    canon(v.n, v.d)
}

/// Whether a rational value can be stored as a [`Ratio`] as it stands.
pub open spec fn rat_fits(c: Rat) -> bool {
    &&& i64::MIN <= c.n <= i64::MAX
    &&& 0 < c.d <= i64::MAX
}

/// The stored form of a rational value (faithful when the value fits).
pub open spec fn ratio_of(v: Rat) -> Ratio {
    Ratio { num: v.n as i64, den: v.d as i64 }
}

/// Euclid's algorithm yields a positive common divisor of both inputs.
pub proof fn lemma_gcd_divides(a: nat, b: nat)
    requires
        a > 0 || b > 0,
    ensures
        gcd(a, b) > 0,
        a % gcd(a, b) == 0,
        b % gcd(a, b) == 0,
    decreases b,
{
    let g = gcd(a, b);
    if b == 0 {
        assert(g == a);
        lemma_mod_self_0(a as int);
        lemma_small_mod(0, a);
    } else {
        lemma_gcd_divides(b, a % b);
        assert(g == gcd(b, a % b));
        assert(g > 0);
        assert(b % g == 0);
        assert((a % b) % g == 0);
        lemma_fundamental_div_mod(a as int, b as int);
        let q = a as int / b as int;
        let r = a as int % b as int;
        assert(a as int == q * (b as int) + r);
        // b is a multiple of g, hence so is q * b.
        lemma_fundamental_div_mod(b as int, g as int);
        let bg = b as int / g as int;
        assert(b as int == g as int * bg);
        assert(q * (b as int) == (q * bg) * (g as int)) by (nonlinear_arith)
            requires b as int == g as int * bg;
        lemma_mod_multiples_basic(q * bg, g as int);
        assert((q * (b as int)) % (g as int) == 0);
        lemma_add_mod_noop(q * (b as int), r, g as int);
        assert((q * (b as int) + r) % (g as int) == ((q * (b as int)) % (g as int) + r % (g as int)) % (g as int));
        lemma_small_mod(0, g);
        assert(a as int % g as int == 0);
    }
}

/// Reducing a pair by its greatest common divisor keeps the denominator
/// positive and preserves the rational value.
pub proof fn lemma_canon(n: int, d: int)
    requires
        d > 0,
    ensures
        ({
            let c = canon(n, d);
            &&& rat_wf(c)
            &&& rat_eq(c, Rat { n, d })
        }),
{
    let g = gcd(abs(n), d as nat) as int;
    lemma_gcd_divides(abs(n), d as nat);
    assert(g > 0);
    assert(abs(n) as int % g == 0);
    assert(d % g == 0);
    // n is (plus or minus) a multiple of g, hence n % g == 0 and n / g is exact.
    lemma_fundamental_div_mod(abs(n) as int, g);
    let qa = abs(n) as int / g;
    assert(abs(n) as int == g * qa);
    let qn = if n >= 0 { qa } else { -qa };
    assert(n == g * qn) by (nonlinear_arith)
        requires abs(n) as int == g * qa, qn == (if n >= 0 { qa } else { -qa }),
                 abs(n) == (if n >= 0 { n } else { -n });
    lemma_div_multiples_vanish(qn, g);
    assert(n / g == qn);
    lemma_fundamental_div_mod(d, g);
    let qd = d / g;
    assert(d == g * qd);
    assert(qd > 0) by (nonlinear_arith)
        requires d == g * qd, d > 0, g > 0;
    let c = canon(n, d);
    assert(c.n == qn && c.d == qd);
    assert(qn * d == n * qd) by (nonlinear_arith)
        requires n == g * qn, d == g * qd;
}

impl Ratio {
    /// Well-formed: the denominator is positive.
    pub open spec fn wf(self) -> bool {
        self.den > 0
    }

    /// The mathematical value this representation stands for.
    pub open spec fn rat(self) -> Rat {
        Rat { n: self.num as int, d: self.den as int }
    }

    /// The rational zero.
    pub fn zero() -> (r: Ratio)
        ensures
            r.wf(),
            r.num == 0,
            r.den == 1,
    {
        Ratio { num: 0, den: 1 }
    }

    /// The integer `i` as a rational.
    pub fn from_int(i: i64) -> (r: Ratio)
        ensures
            r.wf(),
            r.num == i,
            r.den == 1,
    {
        Ratio { num: i, den: 1 }
    }

    /// The fraction `num / den`, reduced to lowest terms; `None` when
    /// `den == 0` or the reduced form does not fit.
    pub fn new(num: i64, den: i64) -> (r: Option<Ratio>)
        ensures
            ({
                let v = if den >= 0 {
                    Rat { n: num as int, d: den as int }
                } else {
                    Rat { n: -(num as int), d: -(den as int) }
                };
                &&& den == 0 ==> r is None
                &&& den != 0 ==> {
                    &&& r matches Some(q) ==> q.wf() && q.rat() == canon_of(v) && rat_eq(q.rat(), v)
                    &&& r is None ==> !rat_fits(canon_of(v))
                }
            }),
    {
        if den == 0 {
            return None;
        }
        let r = if den < 0 {
            normalize(-(num as i128), -(den as i128))
        } else {
            normalize(num as i128, den as i128)
        };
        proof {
            let v = if den >= 0 {
                Rat { n: num as int, d: den as int }
            } else {
                Rat { n: -(num as int), d: -(den as int) }
            };
            lemma_canon(v.n, v.d);
        }
        r
    }
}

impl Ratio {
    /// The exact sum, in lowest terms; `None` when the reduced sum does not fit.
    pub fn add(self, other: Ratio) -> (r: Option<Ratio>)
        requires
            self.wf(),
            other.wf(),
        ensures
            ({
                let v = rat_add(self.rat(), other.rat());
                &&& r matches Some(q) ==> q.wf() && q.rat() == canon_of(v) && rat_eq(q.rat(), v)
                &&& r is None ==> !rat_fits(canon_of(v))
            }),
    {
        proof {
            lemma_num_den_product_bounds(self.num as int, other.den as int);
            lemma_num_den_product_bounds(other.num as int, self.den as int);
            lemma_den_den_product_bounds(self.den as int, other.den as int);
        }
        let n = self.num as i128 * other.den as i128 + other.num as i128 * self.den as i128;
        let d = self.den as i128 * other.den as i128;
        let r = normalize(n, d);
        proof {
            lemma_canon(n as int, d as int);
        }
        r
    }

    /// The exact difference, in lowest terms; `None` when it does not fit.
    pub fn sub(self, other: Ratio) -> (r: Option<Ratio>)
        requires
            self.wf(),
            other.wf(),
        ensures
            ({
                let v = rat_sub(self.rat(), other.rat());
                &&& r matches Some(q) ==> q.wf() && q.rat() == canon_of(v) && rat_eq(q.rat(), v)
                &&& r is None ==> !rat_fits(canon_of(v))
            }),
    {
        proof {
            lemma_num_den_product_bounds(self.num as int, other.den as int);
            lemma_num_den_product_bounds(other.num as int, self.den as int);
            lemma_den_den_product_bounds(self.den as int, other.den as int);
        }
        let n = self.num as i128 * other.den as i128 - other.num as i128 * self.den as i128;
        let d = self.den as i128 * other.den as i128;
        let r = normalize(n, d);
        proof {
            lemma_canon(n as int, d as int);
        }
        r
    }

    /// The exact product, in lowest terms; `None` when it does not fit.
    pub fn mul(self, other: Ratio) -> (r: Option<Ratio>)
        requires
            self.wf(),
            other.wf(),
        ensures
            ({
                let v = rat_mul(self.rat(), other.rat());
                &&& r matches Some(q) ==> q.wf() && q.rat() == canon_of(v) && rat_eq(q.rat(), v)
                &&& r is None ==> !rat_fits(canon_of(v))
            }),
    {
        proof {
            lemma_i64_product_bounds(self.num as int, other.num as int);
            lemma_den_den_product_bounds(self.den as int, other.den as int);
        }
        let n = self.num as i128 * other.num as i128;
        let d = self.den as i128 * other.den as i128;
        let r = normalize(n, d);
        proof {
            lemma_canon(n as int, d as int);
        }
        r
    }

    /// The exact quotient, in lowest terms; `None` when it does not fit.
    /// The divisor must be non-zero.
    pub fn div(self, other: Ratio) -> (r: Option<Ratio>)
        requires
            self.wf(),
            other.wf(),
            other.num != 0,
        ensures
            ({
                let v = rat_div(self.rat(), other.rat());
                &&& r matches Some(q) ==> q.wf() && q.rat() == canon_of(v) && rat_eq(q.rat(), v)
                &&& r is None ==> !rat_fits(canon_of(v))
            }),
    {
        proof {
            lemma_num_den_product_bounds(self.num as int, other.den as int);
            lemma_num_den_product_bounds(other.num as int, self.den as int);
            lemma_sign_of_product(self.den as int, other.num as int);
        }
        let n = self.num as i128 * other.den as i128;
        let d = self.den as i128 * other.num as i128;
        let r = if d < 0 {
            normalize(-n, -d)
        } else {
            normalize(n, d)
        };
        proof {
            let v = rat_div(self.rat(), other.rat());
            lemma_canon(v.n, v.d);
        }
        r
    }

    /// The exact negation, in lowest terms; `None` only when the negated
    /// numerator does not fit.
    pub fn neg(self) -> (r: Option<Ratio>)
        requires
            self.wf(),
        ensures
            ({
                let v = rat_neg(self.rat());
                &&& r matches Some(q) ==> q.wf() && q.rat() == canon_of(v) && rat_eq(q.rat(), v)
                &&& r is None ==> !rat_fits(canon_of(v))
            }),
    {
        let r = normalize(-(self.num as i128), self.den as i128);
        proof {
            let v = rat_neg(self.rat());
            lemma_canon(v.n, v.d);
        }
        r
    }

    /// Exact value comparison `self <= other`.
    pub fn le(self, other: Ratio) -> (r: bool)
        requires
            self.wf(),
            other.wf(),
        ensures
            r == rat_le(self.rat(), other.rat()),
    {
        proof {
            lemma_num_den_product_bounds(self.num as int, other.den as int);
            lemma_num_den_product_bounds(other.num as int, self.den as int);
        }
        self.num as i128 * other.den as i128 <= other.num as i128 * self.den as i128
    }

    /// Exact value comparison `self < other`.
    pub fn lt(self, other: Ratio) -> (r: bool)
        requires
            self.wf(),
            other.wf(),
        ensures
            r == rat_lt(self.rat(), other.rat()),
    {
        proof {
            lemma_num_den_product_bounds(self.num as int, other.den as int);
            lemma_num_den_product_bounds(other.num as int, self.den as int);
        }
        (self.num as i128 * other.den as i128) < (other.num as i128 * self.den as i128)
    }

    /// Exact value equality `self == other` (as rationals, not representations).
    pub fn eq_val(self, other: Ratio) -> (r: bool)
        requires
            self.wf(),
            other.wf(),
        ensures
            r == rat_eq(self.rat(), other.rat()),
    {
        proof {
            lemma_num_den_product_bounds(self.num as int, other.den as int);
            lemma_num_den_product_bounds(other.num as int, self.den as int);
        }
        self.num as i128 * other.den as i128 == other.num as i128 * self.den as i128
    }

    /// Whether the value is `>= 0`.
    pub fn is_nonneg(self) -> (r: bool)
        requires
            self.wf(),
        ensures
            r == rat_le(rat_zero(), self.rat()),
    {
        self.num >= 0
    }

    /// Whether the value is `< 0`.
    pub fn is_neg(self) -> (r: bool)
        requires
            self.wf(),
        ensures
            r == rat_lt(self.rat(), rat_zero()),
    {
        self.num < 0
    }

    /// Whether the value is `> 0`.
    pub fn is_pos(self) -> (r: bool)
        requires
            self.wf(),
        ensures
            r == rat_lt(rat_zero(), self.rat()),
    {
        self.num > 0
    }
}

/// A product with a positive left factor is zero or negative exactly as its
/// right factor is.
proof fn lemma_sign_of_product(a: int, b: int)
    by (nonlinear_arith)
    requires
        a > 0,
        b != 0,
    ensures
        a * b != 0,
        (a * b < 0) == (b < 0),
{
}

/// `|a * b| <= 2^126` when both factors are 64-bit bounded.
proof fn lemma_i64_product_bounds(a: int, b: int)
    by (nonlinear_arith)
    requires
        -0x8000_0000_0000_0000 <= a <= 0x7fff_ffff_ffff_ffff,
        -0x8000_0000_0000_0000 <= b <= 0x7fff_ffff_ffff_ffff,
    ensures
        -0x4000_0000_0000_0000_0000_0000_0000_0000 <= a * b
            <= 0x4000_0000_0000_0000_0000_0000_0000_0000,
{
}

/// A numerator times a positive denominator stays far enough from the
/// `i128` limits that two such products can be added.
proof fn lemma_num_den_product_bounds(a: int, b: int)
    by (nonlinear_arith)
    requires
        -0x8000_0000_0000_0000 <= a <= 0x7fff_ffff_ffff_ffff,
        1 <= b <= 0x7fff_ffff_ffff_ffff,
    ensures
        -0x3fff_ffff_ffff_ffff_8000_0000_0000_0000 <= a * b
            <= 0x3fff_ffff_ffff_ffff_8000_0000_0000_0000,
{
}

/// The product of two positive denominators is a positive denominator.
proof fn lemma_den_den_product_bounds(a: int, b: int)
    by (nonlinear_arith)
    requires
        1 <= a <= 0x7fff_ffff_ffff_ffff,
        1 <= b <= 0x7fff_ffff_ffff_ffff,
    ensures
        1 <= a * b <= 0x3fff_ffff_ffff_ffff_0000_0000_0000_0001,
{
}

/// A strict step followed by `<=` stays strict.
pub proof fn lemma_rat_lt_le_trans(a: Rat, b: Rat, c: Rat)
    by (nonlinear_arith)
    requires
        rat_wf(a),
        rat_wf(b),
        rat_wf(c),
        rat_lt(a, b),
        rat_le(b, c),
    ensures
        rat_lt(a, c),
{
}

/// Value equality of rationals is transitive.
pub proof fn lemma_rat_eq_trans(a: Rat, b: Rat, c: Rat)
    by (nonlinear_arith)
    requires
        rat_wf(a),
        rat_wf(b),
        rat_wf(c),
        rat_eq(a, b),
        rat_eq(b, c),
    ensures
        rat_eq(a, c),
{
}

/// Comparisons respect value equality on both sides.
pub proof fn lemma_rat_cmp_congruence(a: Rat, a2: Rat, b: Rat, b2: Rat)
    by (nonlinear_arith)
    requires
        rat_wf(a),
        rat_wf(a2),
        rat_wf(b),
        rat_wf(b2),
        rat_eq(a, a2),
        rat_eq(b, b2),
    ensures
        rat_le(a, b) == rat_le(a2, b2),
        rat_lt(a, b) == rat_lt(a2, b2),
{
}

/// Addition respects value equality in its second argument.
pub proof fn lemma_rat_add_congruence(a: Rat, b: Rat, b2: Rat)
    by (nonlinear_arith)
    requires
        rat_wf(a),
        rat_wf(b),
        rat_wf(b2),
        rat_eq(b, b2),
    ensures
        rat_eq(rat_add(a, b), rat_add(a, b2)),
{
}

/// Addition respects value equality in its first argument.
pub proof fn lemma_rat_add_congruence_left(a: Rat, a2: Rat, b: Rat)
    by (nonlinear_arith)
    requires
        rat_wf(a),
        rat_wf(a2),
        rat_wf(b),
        rat_eq(a, a2),
    ensures
        rat_eq(rat_add(a, b), rat_add(a2, b)),
{
}

/// Subtraction respects value equality in its second argument.
pub proof fn lemma_rat_sub_congruence(a: Rat, b: Rat, b2: Rat)
    by (nonlinear_arith)
    requires
        rat_wf(a),
        rat_wf(b),
        rat_wf(b2),
        rat_eq(b, b2),
    ensures
        rat_eq(rat_sub(a, b), rat_sub(a, b2)),
{
}

/// Multiplication respects value equality in its second argument.
pub proof fn lemma_rat_mul_congruence(a: Rat, b: Rat, b2: Rat)
    by (nonlinear_arith)
    requires
        rat_wf(a),
        rat_wf(b),
        rat_wf(b2),
        rat_eq(b, b2),
    ensures
        rat_eq(rat_mul(a, b), rat_mul(a, b2)),
{
}

/// Negation respects value equality.
pub proof fn lemma_rat_neg_congruence(a: Rat, b: Rat)
    by (nonlinear_arith)
    requires
        rat_eq(a, b),
    ensures
        rat_eq(rat_neg(a), rat_neg(b)),
{
}

/// The arithmetic on specification rationals keeps denominators positive.
pub proof fn lemma_rat_ops_wf(a: Rat, b: Rat)
    by (nonlinear_arith)
    requires
        rat_wf(a),
        rat_wf(b),
    ensures
        rat_wf(rat_add(a, b)),
        rat_wf(rat_sub(a, b)),
        rat_wf(rat_mul(a, b)),
        rat_wf(rat_neg(a)),
        b.n != 0 ==> rat_wf(rat_div(a, b)),
{
}

/// Euclid's algorithm on machine integers; the result is the specification
/// [`gcd`] and divides both inputs.
fn gcd_u128(a: u128, b: u128) -> (g: u128)
    requires
        a > 0 || b > 0,
    ensures
        g == gcd(a as nat, b as nat),
        g > 0,
        a as nat % g as nat == 0,
        b as nat % g as nat == 0,
{
    let mut x = a;
    let mut y = b;
    while y != 0
        invariant
            gcd(x as nat, y as nat) == gcd(a as nat, b as nat),
            x > 0 || y > 0,
        decreases y,
    {
        let r = x % y;
        proof {
            assert(gcd(x as nat, y as nat) == gcd(y as nat, x as nat % y as nat));
        }
        x = y;
        y = r;
    }
    proof {
        assert(gcd(x as nat, 0) == x as nat);
        lemma_gcd_divides(a as nat, b as nat);
    }
    x
}

/// Reduce `n / d` (with `d > 0`) to lowest terms and pack it into a
/// [`Ratio`] when it fits.
fn normalize(n: i128, d: i128) -> (r: Option<Ratio>)
    requires
        d > 0,
        n > i128::MIN,
    ensures
        ({
            let c = canon(n as int, d as int);
            &&& r matches Some(q) ==> q.wf() && q.rat() == c
            &&& r is None ==> !rat_fits(c)
        }),
{
    let neg = n < 0;
    let mag: u128 = if neg { (-n) as u128 } else { n as u128 };
    let dd: u128 = d as u128;
    let g = gcd_u128(mag, dd);
    let qn = mag / g;
    let qd = dd / g;
    proof {
        lemma_normalize_quotients(n as int, d as int, mag as nat, dd as nat, g as nat, qn as nat, qd as nat);
    }
    if qd > i64::MAX as u128 {
        return None;
    }
    if neg {
        if qn > 9223372036854775808u128 {
            return None;
        }
        if qn == 9223372036854775808u128 {
            Some(Ratio { num: i64::MIN, den: qd as i64 })
        } else {
            Some(Ratio { num: -(qn as i64), den: qd as i64 })
        }
    } else {
        if qn > i64::MAX as u128 {
            return None;
        }
        Some(Ratio { num: qn as i64, den: qd as i64 })
    }
}

/// The machine-integer reduction in [`normalize`] computes exactly the
/// components of [`canon`].
proof fn lemma_normalize_quotients(n: int, d: int, mag: nat, dd: nat, g: nat, qn: nat, qd: nat)
    requires
        d > 0,
        dd == d,
        mag == abs(n),
        g == gcd(mag, dd),
        qn == mag / g,
        qd == dd / g,
    ensures
        g > 0,
        canon(n, d).d == qd,
        qd > 0,
        n >= 0 ==> canon(n, d).n == qn,
        n < 0 ==> canon(n, d).n == -(qn as int),
{
    lemma_gcd_divides(mag, dd);
    assert(g > 0);
    lemma_fundamental_div_mod(mag as int, g as int);
    assert(mag as int == g as int * (mag as int / g as int));
    assert(mag as int / g as int == qn as int);
    let qa = qn as int;
    assert(mag as int == g * qa);
    lemma_fundamental_div_mod(dd as int, g as int);
    assert(dd as int == g as int * (dd as int / g as int));
    assert(dd as int / g as int == qd as int);
    assert(d == g * qd);
    assert(qd > 0) by (nonlinear_arith)
        requires d == g * (qd as int), d > 0, g > 0;
    assert(canon(n, d).d == d / g as int);
    lemma_div_multiples_vanish(qd as int, g as int);
    assert(d / g as int == qd);
    if n >= 0 {
        assert(n == g * qa);
        lemma_div_multiples_vanish(qa, g as int);
        assert(n / g as int == qa);
    } else {
        assert(abs(n) == -n);
        assert(n == g * (-qa)) by (nonlinear_arith)
            requires mag as int == g * qa, n < 0, mag as int == -n;
        lemma_div_multiples_vanish(-qa, g as int);
        assert(n / g as int == -qa);
    }
}

} // verus!
