//! Solving the reduced equation, by degree.
//!
//! The solver dispatches on the length of the trimmed coefficient vector:
//! empty means every real is a solution, a lone constant admits none, a
//! linear equation has the single root `-c/b`, and a quadratic is resolved
//! through its discriminant.  Irrational roots are kept in exact symbolic
//! form `base + coeff * sqrt(radicand)` rather than approximated.

use vstd::prelude::*;

use crate::parse::{EqErrV, EquationError};
use crate::rational::{
    q_abs, q_add, q_div, q_eq, q_fits, q_int, q_mul, q_neg, q_sub, q_wf, q_zero, QV, Rat,
};
use crate::reduce::{all_q_wf, is_trimmed, rat_views};

verus! {

/// A quadratic surd `base + coeff * sqrt(radicand)`, with `radicand >= 0`.
#[derive(Clone, Copy, Debug)]
pub struct Surd {
    pub base: Rat,
    pub coeff: Rat,
    pub radicand: Rat,
}

/// Mathematical value of a surd, over unbounded integers.
pub ghost struct SurdV {
    pub base: QV,
    pub coeff: QV,
    pub radicand: QV,
}

impl View for Surd {
    type V = SurdV;

    open spec fn view(&self) -> SurdV {
        SurdV { base: self.base@, coeff: self.coeff@, radicand: self.radicand@ }
    }
}

/// The outcome of solving a reduced equation.
#[derive(Clone, Debug)]
pub enum SolutionSet {
    /// Both sides reduced to zero: every real number is a solution.
    AllReals,
    /// A nonzero constant equals zero: no solution exists.
    Invalid,
    /// The degree exceeds two; it is reported, and nothing is computed.
    Unsolvable(u64),
    /// A single root.
    OneSolution(Rat),
    /// Two real roots, the larger first.
    TwoSolutions(Surd, Surd),
    /// A negative discriminant: the two complex conjugate roots are
    /// `real + imag*i` and `real - imag*i`.
    NoRealSolution { real: Rat, imag: Surd },
}

pub ghost enum SolV {
    AllReals,
    Invalid,
    Unsolvable(int),
    OneSolution(QV),
    TwoSolutions(SurdV, SurdV),
    NoRealSolution { real: QV, imag: SurdV },
}

impl View for SolutionSet {
    type V = SolV;

    open spec fn view(&self) -> SolV {
        match self {
            SolutionSet::AllReals => SolV::AllReals,
            SolutionSet::Invalid => SolV::Invalid,
            SolutionSet::Unsolvable(d) => SolV::Unsolvable(*d as int),
            SolutionSet::OneSolution(x) => SolV::OneSolution(x@),
            SolutionSet::TwoSolutions(x1, x2) => SolV::TwoSolutions(x1@, x2@),
            SolutionSet::NoRealSolution { real: rp, imag: ip } => SolV::NoRealSolution {
                real: rp@,
                imag: ip@,
            },
        }
    }
}

/// The discriminant `b^2 - 4*a*c`.
pub open spec fn delta_spec(a: QV, b: QV, c: QV) -> QV {
    q_sub(q_mul(b, b), q_mul(q_mul(q_int(4), a), c))
}

/// `-b / (2a)`: the shared rational part of the roots of a quadratic.
pub open spec fn vertex_spec(a: QV, b: QV) -> QV {
    q_div(q_neg(b), q_mul(q_int(2), a))
}

/// `1 / |2a|`: the positive coefficient of the radical part of the roots.
pub open spec fn radical_unit_spec(a: QV) -> QV {
    q_div(q_int(1), q_abs(q_mul(q_int(2), a)))
}

/// The solution set of a quadratic `a*X^2 + b*X + c = 0` with `a != 0`,
/// by the sign of the discriminant.
pub open spec fn quad_spec(a: QV, b: QV, c: QV) -> SolV {
    let delta = delta_spec(a, b, c);
    let re = vertex_spec(a, b);
    let k = radical_unit_spec(a);
    if delta.n < 0 {
        SolV::NoRealSolution {
            real: re,
            imag: SurdV { base: q_zero(), coeff: k, radicand: q_neg(delta) },
        }
    } else if delta.n == 0 {
        SolV::OneSolution(re)
    } else {
        SolV::TwoSolutions(
            SurdV { base: re, coeff: k, radicand: delta },
            SurdV { base: re, coeff: q_neg(k), radicand: delta },
        )
    }
}

/// The solution set of a reduced coefficient vector.
pub open spec fn solve_spec(cs: Seq<QV>) -> SolV {
    if cs.len() > 3 {
        SolV::Unsolvable(cs.len() - 1)
    } else if cs.len() == 3 {
        if cs[2].n == 0 && cs[1].n == 0 && cs[0].n == 0 {
            SolV::AllReals
        } else {
            quad_spec(cs[2], cs[1], cs[0])
        }
    } else if cs.len() == 2 {
        if cs[1].n == 0 && cs[0].n == 0 {
            SolV::AllReals
        } else {
            SolV::OneSolution(q_neg(q_div(cs[0], cs[1])))
        }
    } else if cs.len() == 1 {
        SolV::Invalid
    } else {
        SolV::AllReals
    }
}

/// Whether every intermediate of the quadratic case fits 64-bit rational
/// form, along the path the solver takes.
pub open spec fn quad_ok(a: QV, b: QV, c: QV) -> bool {
    let two_a = q_mul(q_int(2), a);
    let bb = q_mul(b, b);
    let four_a = q_mul(q_int(4), a);
    let fac = q_mul(four_a, c);
    let delta = q_sub(bb, fac);
    let k = radical_unit_spec(a);
    &&& q_fits(two_a)
    &&& q_fits(bb)
    &&& q_fits(four_a)
    &&& q_fits(fac)
    &&& q_fits(delta)
    &&& q_fits(q_neg(b))
    &&& q_fits(vertex_spec(a, b))
    &&& (delta.n != 0 ==> q_fits(q_abs(two_a)) && q_fits(k))
    &&& (delta.n < 0 ==> q_fits(q_neg(delta)))
    &&& (delta.n > 0 ==> q_fits(q_neg(k)))
}

/// Whether the linear case fits 64-bit rational form.
pub open spec fn lin_ok(c0: QV, c1: QV) -> bool {
    &&& q_fits(q_div(c0, c1))
    &&& q_fits(q_neg(q_div(c0, c1)))
}

/// Whether solving succeeds on this machine for this vector.
pub open spec fn solve_ok(cs: Seq<QV>) -> bool {
    if cs.len() == 3 {
        (cs[2].n == 0 && cs[1].n == 0 && cs[0].n == 0) || quad_ok(cs[2], cs[1], cs[0])
    } else if cs.len() == 2 {
        (cs[1].n == 0 && cs[0].n == 0) || lin_ok(cs[0], cs[1])
    } else {
        true
    }
}

/// Any vector of degree above two is reported unsolvable, with its degree.
pub proof fn lemma_unsolvable_above_quadratic(cs: Seq<QV>)
    requires
        cs.len() > 3,
    ensures
        solve_spec(cs) == SolV::Unsolvable(cs.len() - 1),
{
}

/// Solves the trimmed coefficient vector exactly.
pub fn solve(coeffs: &Vec<Rat>) -> (r: Result<SolutionSet, EquationError>)
    requires
        all_q_wf(rat_views(coeffs@)),
        is_trimmed(rat_views(coeffs@)),
    ensures
        match r {
            Ok(s) => s@ == solve_spec(rat_views(coeffs@)) && solve_ok(rat_views(coeffs@)),
            Err(e) => e@ == EqErrV::Overflow && !solve_ok(rat_views(coeffs@)),
        },
{
    let ghost cv = rat_views(coeffs@);
    let n = coeffs.len();
    if n > 3 {
        return Ok(SolutionSet::Unsolvable((n - 1) as u64));
    }
    if n == 3 {
        let a = coeffs[2];
        let b = coeffs[1];
        let c = coeffs[0];
        proof {
            assert(cv[2] == a@ && q_wf(cv[2]));
            assert(cv[1] == b@ && q_wf(cv[1]));
            assert(cv[0] == c@ && q_wf(cv[0]));
            assert(cv.last() == cv[2]);
        }
        if a.is_zero() && b.is_zero() && c.is_zero() {
            return Ok(SolutionSet::AllReals);
        }
        let two = Rat::from_int(2);
        let four = Rat::from_int(4);
        let two_a = match two.try_mul(&a) {
            Some(v) => v,
            None => {
                return Err(EquationError::Overflow);
            },
        };
        let bb = match b.try_mul(&b) {
            Some(v) => v,
            None => {
                return Err(EquationError::Overflow);
            },
        };
        let four_a = match four.try_mul(&a) {
            Some(v) => v,
            None => {
                return Err(EquationError::Overflow);
            },
        };
        let fac = match four_a.try_mul(&c) {
            Some(v) => v,
            None => {
                return Err(EquationError::Overflow);
            },
        };
        let delta = match bb.try_sub(&fac) {
            Some(v) => v,
            None => {
                return Err(EquationError::Overflow);
            },
        };
        let neg_b = match b.try_neg() {
            Some(v) => v,
            None => {
                return Err(EquationError::Overflow);
            },
        };
        proof {
            assert(two_a@.n == 2 * a@.n);
            assert(a@.n != 0 ==> two_a@.n != 0);
        }
        let re = match neg_b.try_div(&two_a) {
            Some(v) => v,
            None => {
                return Err(EquationError::Overflow);
            },
        };
        if delta.num < 0 {
            let abs_two_a = match two_a.try_abs() {
                Some(v) => v,
                None => {
                    return Err(EquationError::Overflow);
                },
            };
            let k = match Rat::from_int(1).try_div(&abs_two_a) {
                Some(v) => v,
                None => {
                    return Err(EquationError::Overflow);
                },
            };
            let neg_delta = match delta.try_neg() {
                Some(v) => v,
                None => {
                    return Err(EquationError::Overflow);
                },
            };
            return Ok(
                SolutionSet::NoRealSolution {
                    real: re,
                    imag: Surd { base: Rat::zero(), coeff: k, radicand: neg_delta },
                },
            );
        } else if delta.num == 0 {
            return Ok(SolutionSet::OneSolution(re));
        } else {
            let abs_two_a = match two_a.try_abs() {
                Some(v) => v,
                None => {
                    return Err(EquationError::Overflow);
                },
            };
            let k = match Rat::from_int(1).try_div(&abs_two_a) {
                Some(v) => v,
                None => {
                    return Err(EquationError::Overflow);
                },
            };
            let neg_k = match k.try_neg() {
                Some(v) => v,
                None => {
                    return Err(EquationError::Overflow);
                },
            };
            return Ok(
                SolutionSet::TwoSolutions(
                    Surd { base: re, coeff: k, radicand: delta },
                    Surd { base: re, coeff: neg_k, radicand: delta },
                ),
            );
        }
    }
    if n == 2 {
        let c0 = coeffs[0];
        let c1 = coeffs[1];
        proof {
            assert(cv[0] == c0@ && q_wf(cv[0]));
            assert(cv[1] == c1@ && q_wf(cv[1]));
            assert(cv.last() == cv[1]);
        }
        if c0.is_zero() && c1.is_zero() {
            return Ok(SolutionSet::AllReals);
        }
        let quot = match c0.try_div(&c1) {
            Some(v) => v,
            None => {
                return Err(EquationError::Overflow);
            },
        };
        let x = match quot.try_neg() {
            Some(v) => v,
            None => {
                return Err(EquationError::Overflow);
            },
        };
        return Ok(SolutionSet::OneSolution(x));
    }
    if n == 1 {
        return Ok(SolutionSet::Invalid);
    }
    Ok(SolutionSet::AllReals)
}

} // verus!
