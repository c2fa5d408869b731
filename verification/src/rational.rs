//! An exact rational scalar type and its mathematical model.
//!
//! Every coordinate, weight and function value handled by the interpolator is
//! a `Rational`: an `i64` numerator over a positive `i64` denominator, both
//! strictly bounded so that any product of two components, and any sum of two
//! such products, fits in `i128`. Arithmetic is exact; an operation whose
//! result would leave the bounded range reports that by returning `None`.

use vstd::prelude::*;

verus! {

/// Largest magnitude allowed for a stored numerator or denominator (`2^62`).
///
/// Keeping both components strictly below this bound lets every product of
/// two components, and every sum or difference of two such products, be
/// computed in `i128` without overflow.
pub const COEF_LIMIT: i64 = 0x4000_0000_0000_0000;

/// Mathematical model of a rational number: an integer numerator over an
/// integer denominator, not necessarily reduced.
pub ghost struct Rat {
    pub n: int,
    pub d: int,
}

/// A well-formed model value keeps its denominator positive.
pub open spec fn rat_wf(a: Rat) -> bool {
    0 < a.d
}

/// Equality of rational values by cross-multiplication, so that unreduced
/// representations of the same value compare equal.
pub open spec fn rat_eq(a: Rat, b: Rat) -> bool {
    a.n * b.d == b.n * a.d
}

pub open spec fn rat_zero() -> Rat {
    Rat { n: 0, d: 1 }
}

pub open spec fn rat_one() -> Rat {
    Rat { n: 1, d: 1 }
}

pub open spec fn rat_add(a: Rat, b: Rat) -> Rat {
    Rat { n: a.n * b.d + b.n * a.d, d: a.d * b.d }
}

pub open spec fn rat_sub(a: Rat, b: Rat) -> Rat {
    Rat { n: a.n * b.d - b.n * a.d, d: a.d * b.d }
}

pub open spec fn rat_mul(a: Rat, b: Rat) -> Rat {
    Rat { n: a.n * b.n, d: a.d * b.d }
}

/// Reciprocal, with the sign moved to the numerator so that a well-formed
/// argument gives a well-formed result. The reciprocal of a zero-valued
/// rational is defined to be zero.
pub open spec fn rat_recip(a: Rat) -> Rat {
    if a.n == 0 {
        rat_zero()
    } else if 0 < a.n {
        Rat { n: a.d, d: a.n }
    } else {
        Rat { n: -a.d, d: -a.n }
    }
}

/// Division as multiplication by the reciprocal; dividing by a zero-valued
/// rational yields zero.
pub open spec fn rat_div(a: Rat, b: Rat) -> Rat {
    rat_mul(a, rat_recip(b))
}

pub open spec fn coef_in_range(x: int) -> bool {
    -(COEF_LIMIT as int) < x && x < COEF_LIMIT as int
}

/// The representable rationals: bounded components and a positive
/// denominator.
pub open spec fn rat_in_range(a: Rat) -> bool {
    coef_in_range(a.n) && 0 < a.d && coef_in_range(a.d)
}

pub proof fn lemma_pos_mul(a: int, b: int)
    by (nonlinear_arith)
    requires
        0 < a,
        0 < b,
    ensures
        0 < a * b,
{
}

pub proof fn lemma_add_wf(a: Rat, b: Rat)
    requires
        rat_wf(a),
        rat_wf(b),
    ensures
        rat_wf(rat_add(a, b)),
{
    lemma_pos_mul(a.d, b.d);
}

pub proof fn lemma_sub_wf(a: Rat, b: Rat)
    requires
        rat_wf(a),
        rat_wf(b),
    ensures
        rat_wf(rat_sub(a, b)),
{
    lemma_pos_mul(a.d, b.d);
}

pub proof fn lemma_mul_wf(a: Rat, b: Rat)
    requires
        rat_wf(a),
        rat_wf(b),
    ensures
        rat_wf(rat_mul(a, b)),
{
    lemma_pos_mul(a.d, b.d);
}

pub proof fn lemma_div_wf(a: Rat, b: Rat)
    requires
        rat_wf(a),
        rat_wf(b),
    ensures
        rat_wf(rat_div(a, b)),
{
    lemma_recip_wf(b);
    lemma_pos_mul(a.d, rat_recip(b).d);
}

/// `rat_eq` is transitive across a well-formed middle value.
pub proof fn lemma_rat_eq_trans(a: Rat, b: Rat, c: Rat)
    requires
        rat_wf(b),
        rat_eq(a, b),
        rat_eq(b, c),
    ensures
        rat_eq(a, c),
{
    assert(a.n * c.d == c.n * a.d) by (nonlinear_arith)
        requires
            0 < b.d,
            a.n * b.d == b.n * a.d,
            b.n * c.d == c.n * b.d,
    ;
}

/// Adding equal values to equal values gives equal values.
pub proof fn lemma_add_congruence(a: Rat, a2: Rat, b: Rat, b2: Rat)
    requires
        rat_eq(a, a2),
        rat_eq(b, b2),
    ensures
        rat_eq(rat_add(a, b), rat_add(a2, b2)),
{
    let x1: int = a.n * b.d;
    let x2: int = b.n * a.d;
    let y: int = a2.d * b2.d;
    let z1: int = a2.n * b2.d;
    let z2: int = b2.n * a2.d;
    let w: int = a.d * b.d;
    assert(x1 * y == z1 * w) by (nonlinear_arith)
        requires
            x1 == a.n * b.d,
            y == a2.d * b2.d,
            z1 == a2.n * b2.d,
            w == a.d * b.d,
            a.n * a2.d == a2.n * a.d,
    ;
    assert(x2 * y == z2 * w) by (nonlinear_arith)
        requires
            x2 == b.n * a.d,
            y == a2.d * b2.d,
            z2 == b2.n * a2.d,
            w == a.d * b.d,
            b.n * b2.d == b2.n * b.d,
    ;
    assert((x1 + x2) * y == x1 * y + x2 * y) by (nonlinear_arith);
    assert((z1 + z2) * w == z1 * w + z2 * w) by (nonlinear_arith);
}

/// Multiplying equal values by equal values gives equal values.
pub proof fn lemma_mul_congruence(a: Rat, a2: Rat, b: Rat, b2: Rat)
    requires
        rat_eq(a, a2),
        rat_eq(b, b2),
    ensures
        rat_eq(rat_mul(a, b), rat_mul(a2, b2)),
{
    assert((a.n * b.n) * (a2.d * b2.d) == (a2.n * b2.n) * (a.d * b.d)) by (nonlinear_arith)
        requires
            a.n * a2.d == a2.n * a.d,
            b.n * b2.d == b2.n * b.d,
    ;
}

/// The reciprocal of a well-formed value is well-formed.
pub proof fn lemma_recip_wf(a: Rat)
    requires
        rat_wf(a),
    ensures
        rat_wf(rat_recip(a)),
{
}

/// Equal values have equal reciprocals.
pub proof fn lemma_recip_congruence(a: Rat, b: Rat)
    requires
        rat_wf(a),
        rat_wf(b),
        rat_eq(a, b),
    ensures
        rat_eq(rat_recip(a), rat_recip(b)),
{
    if a.n == 0 {
        assert(b.n == 0) by (nonlinear_arith)
            requires
                0 < a.d,
                0 < b.d,
                a.n * b.d == b.n * a.d,
                a.n == 0,
        ;
    } else if a.n > 0 {
        assert(b.n > 0) by (nonlinear_arith)
            requires
                0 < a.d,
                0 < b.d,
                a.n * b.d == b.n * a.d,
                a.n > 0,
        ;
        assert(a.d * b.n == b.d * a.n) by (nonlinear_arith)
            requires
                a.n * b.d == b.n * a.d,
        ;
    } else {
        assert(b.n < 0) by (nonlinear_arith)
            requires
                0 < a.d,
                0 < b.d,
                a.n * b.d == b.n * a.d,
                a.n < 0,
        ;
        assert((-a.d) * (-b.n) == (-b.d) * (-a.n)) by (nonlinear_arith)
            requires
                a.n * b.d == b.n * a.d,
        ;
    }
}

/// Dividing equal values by equal well-formed values gives equal values.
pub proof fn lemma_div_congruence(a: Rat, a2: Rat, b: Rat, b2: Rat)
    requires
        rat_wf(b),
        rat_wf(b2),
        rat_eq(a, a2),
        rat_eq(b, b2),
    ensures
        rat_eq(rat_div(a, b), rat_div(a2, b2)),
{
    lemma_recip_congruence(b, b2);
    lemma_mul_congruence(a, a2, rat_recip(b), rat_recip(b2));
}

/// Multiplication distributes over addition, up to `rat_eq`.
pub proof fn lemma_mul_add_distrib(c: Rat, a: Rat, b: Rat)
    ensures
        rat_eq(rat_mul(c, rat_add(a, b)), rat_add(rat_mul(c, a), rat_mul(c, b))),
{
    let lhs = rat_mul(c, rat_add(a, b));
    let rhs = rat_add(rat_mul(c, a), rat_mul(c, b));
    let u: int = a.n * b.d;
    let v: int = b.n * a.d;
    let s: int = a.d * b.d;
    assert((c.d * a.d) * (c.d * b.d) == c.d * (c.d * (a.d * b.d))) by (nonlinear_arith);
    assert((c.n * a.n) * (c.d * b.d) == c.n * (c.d * (a.n * b.d))) by (nonlinear_arith);
    assert((c.n * b.n) * (c.d * a.d) == c.n * (c.d * (b.n * a.d))) by (nonlinear_arith);
    assert(lhs.n == c.n * (u + v));
    assert(lhs.d == c.d * s);
    assert(rhs.n == c.n * (c.d * u) + c.n * (c.d * v));
    assert(rhs.d == c.d * (c.d * s));
    assert((c.n * (u + v)) * (c.d * (c.d * s)) == (c.n * (c.d * u) + c.n * (c.d * v)) * (c.d * s))
        by (nonlinear_arith);
    assert(lhs.n * rhs.d == rhs.n * lhs.d);
}

pub proof fn lemma_mul_comm(a: Rat, b: Rat)
    ensures
        rat_mul(a, b) == rat_mul(b, a),
{
    assert(a.n * b.n == b.n * a.n) by (nonlinear_arith);
    assert(a.d * b.d == b.d * a.d) by (nonlinear_arith);
}

/// Multiplying by a nonzero value and dividing by it again returns the
/// original value.
pub proof fn lemma_mul_recip_cancel(a: Rat, b: Rat)
    requires
        rat_wf(a),
        rat_wf(b),
        b.n != 0,
    ensures
        rat_eq(rat_mul(rat_mul(a, b), rat_recip(b)), a),
{
    if b.n > 0 {
        assert((((a.n * b.n) * b.d)) * a.d == a.n * ((a.d * b.d) * b.n)) by (nonlinear_arith);
    } else {
        assert((((a.n * b.n) * (-b.d))) * a.d == a.n * ((a.d * b.d) * (-b.n))) by (nonlinear_arith);
    }
}

/// A common nonzero factor of the dividend and the divisor cancels.
pub proof fn lemma_div_scale(c: Rat, a: Rat, b: Rat)
    requires
        rat_wf(c),
        rat_wf(a),
        rat_wf(b),
        c.n != 0,
    ensures
        rat_eq(rat_div(rat_mul(c, a), rat_mul(c, b)), rat_div(a, b)),
{
    let lhs = rat_div(rat_mul(c, a), rat_mul(c, b));
    let rhs = rat_div(a, b);
    let cb = rat_mul(c, b);
    if b.n == 0 {
        assert(cb.n == 0) by (nonlinear_arith)
            requires
                cb.n == c.n * b.n,
                b.n == 0,
        ;
        assert(lhs.n * rhs.d == rhs.n * lhs.d) by (nonlinear_arith)
            requires
                lhs.n == (c.n * a.n) * 0,
                rhs.n == a.n * 0,
        ;
    } else if b.n > 0 && c.n > 0 {
        assert(cb.n > 0) by (nonlinear_arith)
            requires
                cb.n == c.n * b.n,
                b.n > 0,
                c.n > 0,
        ;
        assert(((c.n * a.n) * (c.d * b.d)) * (a.d * b.n) == (c.n * c.d) * ((a.n * b.d) * (a.d
            * b.n))) by (nonlinear_arith);
        assert((a.n * b.d) * ((c.d * a.d) * (c.n * b.n)) == (c.n * c.d) * ((a.n * b.d) * (a.d
            * b.n))) by (nonlinear_arith);
        assert(lhs.n * rhs.d == rhs.n * lhs.d);
    } else if b.n > 0 && c.n < 0 {
        assert(cb.n < 0) by (nonlinear_arith)
            requires
                cb.n == c.n * b.n,
                b.n > 0,
                c.n < 0,
        ;
        assert(((c.n * a.n) * (-(c.d * b.d))) * (a.d * b.n) == -((c.n * c.d) * ((a.n * b.d) * (a.d
            * b.n)))) by (nonlinear_arith);
        assert((a.n * b.d) * ((c.d * a.d) * (-(c.n * b.n))) == -((c.n * c.d) * ((a.n * b.d) * (a.d
            * b.n)))) by (nonlinear_arith);
        assert(lhs.n * rhs.d == rhs.n * lhs.d);
    } else if b.n < 0 && c.n > 0 {
        assert(cb.n < 0) by (nonlinear_arith)
            requires
                cb.n == c.n * b.n,
                b.n < 0,
                c.n > 0,
        ;
        assert(((c.n * a.n) * (-(c.d * b.d))) * (a.d * (-b.n)) == (c.n * c.d) * ((a.n * b.d) * (a.d
            * b.n))) by (nonlinear_arith);
        assert((a.n * (-b.d)) * ((c.d * a.d) * (-(c.n * b.n))) == (c.n * c.d) * ((a.n * b.d) * (a.d
            * b.n))) by (nonlinear_arith);
        assert(lhs.n * rhs.d == rhs.n * lhs.d);
    } else {
        assert(cb.n > 0) by (nonlinear_arith)
            requires
                cb.n == c.n * b.n,
                b.n < 0,
                c.n < 0,
        ;
        assert(((c.n * a.n) * (c.d * b.d)) * (a.d * (-b.n)) == -((c.n * c.d) * ((a.n * b.d) * (a.d
            * b.n)))) by (nonlinear_arith);
        assert((a.n * (-b.d)) * ((c.d * a.d) * (c.n * b.n)) == -((c.n * c.d) * ((a.n * b.d) * (a.d
            * b.n)))) by (nonlinear_arith);
        assert(lhs.n * rhs.d == rhs.n * lhs.d);
    }
}

/// An exact rational scalar with bounded components.
#[derive(Clone, Copy, Debug)]
pub struct Rational {
    num: i64,
    den: i64,
}

impl View for Rational {
    type V = Rat;

    closed spec fn view(&self) -> Rat {
        Rat { n: self.num as int, d: self.den as int }
    }
}

proof fn lemma_bounded_mul_fits(a: int, b: int)
    by (nonlinear_arith)
    requires
        -0x4000_0000_0000_0000 <= a <= 0x4000_0000_0000_0000,
        -0x4000_0000_0000_0000 <= b <= 0x4000_0000_0000_0000,
    ensures
        -0x1000_0000_0000_0000_0000_0000_0000_0000 <= a * b,
        a * b <= 0x1000_0000_0000_0000_0000_0000_0000_0000,
{
}

impl Rational {
    /// The representation invariant every constructor establishes and every
    /// operation preserves.
    pub open spec fn wf(self) -> bool {
        rat_in_range(self@)
    }

    /// Builds the rational `num / den`, refusing a nonpositive denominator
    /// or a component outside the representable range.
    pub fn new(num: i64, den: i64) -> (r: Option<Rational>)
        ensures
            match r {
                Some(c) => c.wf() && c@ == (Rat { n: num as int, d: den as int }),
                None => !rat_in_range(Rat { n: num as int, d: den as int }),
            },
    {
        if -COEF_LIMIT < num && num < COEF_LIMIT && 0 < den && den < COEF_LIMIT {
            Some(Rational { num, den })
        } else {
            None
        }
    }

    /// Builds the integer `v` as a rational.
    pub fn from_int(v: i64) -> (r: Option<Rational>)
        ensures
            match r {
                Some(c) => c.wf() && c@ == (Rat { n: v as int, d: 1 }),
                None => !coef_in_range(v as int),
            },
    {
        Rational::new(v, 1)
    }

    pub fn zero() -> (r: Rational)
        ensures
            r.wf(),
            r@ == rat_zero(),
    {
        Rational { num: 0, den: 1 }
    }

    pub fn one() -> (r: Rational)
        ensures
            r.wf(),
            r@ == rat_one(),
    {
        Rational { num: 1, den: 1 }
    }

    pub fn numerator(&self) -> (r: i64)
        ensures
            r as int == self@.n,
    {
        self.num
    }

    pub fn denominator(&self) -> (r: i64)
        ensures
            r as int == self@.d,
    {
        self.den
    }

    /// Decides equality of the represented rational values.
    pub fn equals(&self, rhs: &Rational) -> (r: bool)
        requires
            self.wf(),
            rhs.wf(),
        ensures
            r == rat_eq(self@, rhs@),
    {
        proof {
            lemma_bounded_mul_fits(self.num as int, rhs.den as int);
            lemma_bounded_mul_fits(rhs.num as int, self.den as int);
        }
        (self.num as i128) * (rhs.den as i128) == (rhs.num as i128) * (self.den as i128)
    }

    /// Exact reciprocal; total on well-formed values.
    pub fn recip(&self) -> (r: Rational)
        requires
            self.wf(),
        ensures
            r.wf(),
            r@ == rat_recip(self@),
    {
        if self.num == 0 {
            Rational { num: 0, den: 1 }
        } else if self.num > 0 {
            Rational { num: self.den, den: self.num }
        } else {
            Rational { num: -self.den, den: -self.num }
        }
    }

    /// Narrows an exactly computed numerator/denominator pair back into the
    /// bounded representation.
    fn narrow(n: i128, d: i128) -> (r: Option<Rational>)
        ensures
            match r {
                Some(c) => c.wf() && c@ == (Rat { n: n as int, d: d as int }),
                None => !rat_in_range(Rat { n: n as int, d: d as int }),
            },
    {
        let lim: i128 = COEF_LIMIT as i128;
        if -lim < n && n < lim && 0 < d && d < lim {
            Some(Rational { num: n as i64, den: d as i64 })
        } else {
            None
        }
    }

    /// Exact addition; `None` exactly when the exact result has a component
    /// outside the representable range.
    pub fn try_add(&self, rhs: &Rational) -> (r: Option<Rational>)
        requires
            self.wf(),
            rhs.wf(),
        ensures
            match r {
                Some(c) => c.wf() && c@ == rat_add(self@, rhs@),
                None => !rat_in_range(rat_add(self@, rhs@)),
            },
    {
        proof {
            lemma_bounded_mul_fits(self.num as int, rhs.den as int);
            lemma_bounded_mul_fits(rhs.num as int, self.den as int);
            lemma_bounded_mul_fits(self.den as int, rhs.den as int);
        }
        let n: i128 = (self.num as i128) * (rhs.den as i128) + (rhs.num as i128) * (self.den as i128);
        let d: i128 = (self.den as i128) * (rhs.den as i128);
        Rational::narrow(n, d)
    }

    /// Exact subtraction; `None` exactly when the exact result has a
    /// component outside the representable range.
    pub fn try_sub(&self, rhs: &Rational) -> (r: Option<Rational>)
        requires
            self.wf(),
            rhs.wf(),
        ensures
            match r {
                Some(c) => c.wf() && c@ == rat_sub(self@, rhs@),
                None => !rat_in_range(rat_sub(self@, rhs@)),
            },
    {
        proof {
            lemma_bounded_mul_fits(self.num as int, rhs.den as int);
            lemma_bounded_mul_fits(rhs.num as int, self.den as int);
            lemma_bounded_mul_fits(self.den as int, rhs.den as int);
        }
        let n: i128 = (self.num as i128) * (rhs.den as i128) - (rhs.num as i128) * (self.den as i128);
        let d: i128 = (self.den as i128) * (rhs.den as i128);
        Rational::narrow(n, d)
    }

    /// Exact multiplication; `None` exactly when the exact result has a
    /// component outside the representable range.
    pub fn try_mul(&self, rhs: &Rational) -> (r: Option<Rational>)
        requires
            self.wf(),
            rhs.wf(),
        ensures
            match r {
                Some(c) => c.wf() && c@ == rat_mul(self@, rhs@),
                None => !rat_in_range(rat_mul(self@, rhs@)),
            },
    {
        proof {
            lemma_bounded_mul_fits(self.num as int, rhs.num as int);
            lemma_bounded_mul_fits(self.den as int, rhs.den as int);
        }
        let n: i128 = (self.num as i128) * (rhs.num as i128);
        let d: i128 = (self.den as i128) * (rhs.den as i128);
        Rational::narrow(n, d)
    }

    /// Exact division, with division by a zero-valued rational yielding
    /// zero; `None` exactly when the exact result has a component outside
    /// the representable range.
    pub fn try_div(&self, rhs: &Rational) -> (r: Option<Rational>)
        requires
            self.wf(),
            rhs.wf(),
        ensures
            match r {
                Some(c) => c.wf() && c@ == rat_div(self@, rhs@),
                None => !rat_in_range(rat_div(self@, rhs@)),
            },
    {
        let inv = rhs.recip();
        self.try_mul(&inv)
    }
}

} // verus!
