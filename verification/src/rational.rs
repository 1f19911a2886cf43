//! Exact rational numbers.
//!
//! An executable rational is a pair of 64-bit integers with a positive
//! denominator.  Its mathematical value is the ghost pair [`QV`] of
//! unbounded integers; all arithmetic is specified over [`QV`], where it is
//! exact, and the executable operations either return that exact value or
//! report that it does not fit the 64-bit representation.

use vstd::prelude::*;

verus! {

/// Mathematical value of a rational number: numerator over denominator,
/// with no bound on either.
pub ghost struct QV {
    pub n: int,
    pub d: int,
}

/// A well-formed rational value has a positive denominator.
pub open spec fn q_wf(a: QV) -> bool {
    a.d > 0
}

pub open spec fn q_int(n: int) -> QV {
    QV { n: n, d: 1 }
}

pub open spec fn q_zero() -> QV {
    q_int(0)
}

pub open spec fn q_add(a: QV, b: QV) -> QV {
    QV { n: a.n * b.d + b.n * a.d, d: a.d * b.d }
}

pub open spec fn q_sub(a: QV, b: QV) -> QV {
    QV { n: a.n * b.d - b.n * a.d, d: a.d * b.d }
}

pub open spec fn q_mul(a: QV, b: QV) -> QV {
    QV { n: a.n * b.n, d: a.d * b.d }
}

pub open spec fn q_neg(a: QV) -> QV {
    QV { n: -a.n, d: a.d }
}

/// Quotient of two rationals, with the denominator kept positive.
/// Meaningful only when `b.n != 0`.
pub open spec fn q_div(a: QV, b: QV) -> QV {
    if b.n >= 0 {
        QV { n: a.n * b.d, d: a.d * b.n }
    } else {
        QV { n: -(a.n * b.d), d: a.d * -b.n }
    }
}

pub open spec fn q_abs(a: QV) -> QV {
    QV { n: if a.n < 0 { -a.n } else { a.n }, d: a.d }
}

/// Equality of the represented values (cross multiplication); sound for
/// well-formed rationals.
pub open spec fn q_eq(a: QV, b: QV) -> bool {
    a.n * b.d == b.n * a.d
}

/// Whether a value is representable by a pair of 64-bit integers.
pub open spec fn q_fits(a: QV) -> bool {
    &&& i64::MIN <= a.n <= i64::MAX
    &&& 1 <= a.d <= i64::MAX
}

/// Product bound used to keep 128-bit intermediates in range: a numerator
/// in 64-bit range times a positive denominator in 64-bit range.
proof fn lemma_mul_num_den(n: int, d: int)
    by (nonlinear_arith)
    requires
        -0x8000000000000000 <= n <= 0x7fffffffffffffff,
        1 <= d <= 0x7fffffffffffffff,
    ensures
        -(0x8000000000000000 * 0x7fffffffffffffff) <= n * d
            <= 0x8000000000000000 * 0x7fffffffffffffff,
{
}

/// Product bound for two arbitrary 64-bit numerators.
proof fn lemma_mul_i64_i64(a: int, b: int)
    by (nonlinear_arith)
    requires
        -0x8000000000000000 <= a <= 0x7fffffffffffffff,
        -0x8000000000000000 <= b <= 0x7fffffffffffffff,
    ensures
        -(0x8000000000000000 * 0x8000000000000000) <= a * b
            <= 0x8000000000000000 * 0x8000000000000000,
{
}

/// Product bound for a positive factor that may be as large as `2^63`
/// (the magnitude of the smallest 64-bit numerator) times a positive
/// 64-bit denominator.
proof fn lemma_mul_pos_bound(a: int, b: int)
    by (nonlinear_arith)
    requires
        1 <= a <= 0x8000000000000000,
        1 <= b <= 0x7fffffffffffffff,
    ensures
        1 <= a * b <= 0x8000000000000000 * 0x7fffffffffffffff,
        b * a == a * b,
{
}

proof fn lemma_mul_pos(a: int, b: int)
    by (nonlinear_arith)
    requires
        a >= 1,
        b >= 1,
    ensures
        a * b >= 1,
{
}

/// An exact rational number: `num / den` with `den > 0`.
#[derive(Clone, Copy, Debug)]
pub struct Rat {
    pub num: i64,
    pub den: i64,
}

impl View for Rat {
    type V = QV;

    open spec fn view(&self) -> QV {
        QV { n: self.num as int, d: self.den as int }
    }
}

impl Rat {
    pub open spec fn wf(self) -> bool {
        q_wf(self@)
    }

    pub fn new(num: i64, den: i64) -> (r: Rat)
        requires
            den > 0,
        ensures
            r@ == (QV { n: num as int, d: den as int }),
            r.wf(),
    {
        Rat { num, den }
    }

    pub fn from_int(n: i64) -> (r: Rat)
        ensures
            r@ == q_int(n as int),
            r.wf(),
    {
        Rat { num: n, den: 1 }
    }

    pub fn zero() -> (r: Rat)
        ensures
            r@ == q_zero(),
            r.wf(),
    {
        Rat { num: 0, den: 1 }
    }

    pub fn is_zero(&self) -> (r: bool)
        ensures
            r == (self@.n == 0),
    {
        self.num == 0
    }

    /// Exact sum, or `None` when it does not fit 64-bit form.
    pub fn try_add(&self, other: &Rat) -> (r: Option<Rat>)
        requires
            self.wf(),
            other.wf(),
        ensures
            match r {
                Some(v) => v@ == q_add(self@, other@) && v.wf(),
                None => !q_fits(q_add(self@, other@)),
            },
    {
        proof {
            lemma_mul_num_den(self.num as int, other.den as int);
            lemma_mul_num_den(other.num as int, self.den as int);
            lemma_mul_num_den(self.den as int, other.den as int);
            lemma_mul_pos(self.den as int, other.den as int);
        }
        let n: i128 = (self.num as i128) * (other.den as i128)
            + (other.num as i128) * (self.den as i128);
        let d: i128 = (self.den as i128) * (other.den as i128);
        if n < i64::MIN as i128 || n > i64::MAX as i128 || d > i64::MAX as i128 {
            None
        } else {
            Some(Rat { num: n as i64, den: d as i64 })
        }
    }

    /// Exact difference, or `None` when it does not fit 64-bit form.
    pub fn try_sub(&self, other: &Rat) -> (r: Option<Rat>)
        requires
            self.wf(),
            other.wf(),
        ensures
            match r {
                Some(v) => v@ == q_sub(self@, other@) && v.wf(),
                None => !q_fits(q_sub(self@, other@)),
            },
    {
        proof {
            lemma_mul_num_den(self.num as int, other.den as int);
            lemma_mul_num_den(other.num as int, self.den as int);
            lemma_mul_num_den(self.den as int, other.den as int);
            lemma_mul_pos(self.den as int, other.den as int);
        }
        let n: i128 = (self.num as i128) * (other.den as i128)
            - (other.num as i128) * (self.den as i128);
        let d: i128 = (self.den as i128) * (other.den as i128);
        if n < i64::MIN as i128 || n > i64::MAX as i128 || d > i64::MAX as i128 {
            None
        } else {
            Some(Rat { num: n as i64, den: d as i64 })
        }
    }

    /// Exact product, or `None` when it does not fit 64-bit form.
    pub fn try_mul(&self, other: &Rat) -> (r: Option<Rat>)
        requires
            self.wf(),
            other.wf(),
        ensures
            match r {
                Some(v) => v@ == q_mul(self@, other@) && v.wf(),
                None => !q_fits(q_mul(self@, other@)),
            },
    {
        proof {
            lemma_mul_i64_i64(self.num as int, other.num as int);
            lemma_mul_num_den(self.den as int, other.den as int);
            lemma_mul_pos(self.den as int, other.den as int);
        }
        let n: i128 = (self.num as i128) * (other.num as i128);
        let d: i128 = (self.den as i128) * (other.den as i128);
        if n < i64::MIN as i128 || n > i64::MAX as i128 || d > i64::MAX as i128 {
            None
        } else {
            Some(Rat { num: n as i64, den: d as i64 })
        }
    }

    /// Exact negation, or `None` when it does not fit 64-bit form.
    pub fn try_neg(&self) -> (r: Option<Rat>)
        requires
            self.wf(),
        ensures
            match r {
                Some(v) => v@ == q_neg(self@) && v.wf(),
                None => !q_fits(q_neg(self@)),
            },
    {
        if self.num == i64::MIN {
            None
        } else {
            Some(Rat { num: -self.num, den: self.den })
        }
    }

    /// Exact quotient, or `None` when it does not fit 64-bit form.
    pub fn try_div(&self, other: &Rat) -> (r: Option<Rat>)
        requires
            self.wf(),
            other.wf(),
            other@.n != 0,
        ensures
            match r {
                Some(v) => v@ == q_div(self@, other@) && v.wf(),
                None => !q_fits(q_div(self@, other@)),
            },
    {
        proof {
            lemma_mul_num_den(self.num as int, other.den as int);
        }
        let n0: i128 = (self.num as i128) * (other.den as i128);
        let n: i128;
        let d: i128;
        if other.num > 0 {
            proof {
                lemma_mul_pos_bound(other.num as int, self.den as int);
            }
            n = n0;
            d = (self.den as i128) * (other.num as i128);
        } else {
            proof {
                lemma_mul_pos_bound(-(other.num as int), self.den as int);
            }
            n = -n0;
            d = (self.den as i128) * (-(other.num as i128));
        }
        if n < i64::MIN as i128 || n > i64::MAX as i128 || d > i64::MAX as i128 {
            None
        } else {
            Some(Rat { num: n as i64, den: d as i64 })
        }
    }

    /// Exact absolute value, or `None` when it does not fit 64-bit form.
    pub fn try_abs(&self) -> (r: Option<Rat>)
        requires
            self.wf(),
        ensures
            match r {
                Some(v) => v@ == q_abs(self@) && v.wf(),
                None => !q_fits(q_abs(self@)),
            },
    {
        if self.num >= 0 {
            Some(*self)
        } else if self.num == i64::MIN {
            None
        } else {
            Some(Rat { num: -self.num, den: self.den })
        }
    }

    /// Whether the two rationals represent the same value.
    pub fn same_value(&self, other: &Rat) -> (r: bool)
        requires
            self.wf(),
            other.wf(),
        ensures
            r == q_eq(self@, other@),
    {
        proof {
            lemma_mul_num_den(self.num as int, other.den as int);
            lemma_mul_num_den(other.num as int, self.den as int);
        }
        (self.num as i128) * (other.den as i128) == (other.num as i128) * (self.den as i128)
    }
}

} // verus!
