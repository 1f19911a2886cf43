//! Exact solver for polynomial equations of degree at most two.
//!
//! The pipeline parses a textual equation such as
//! `"5 * X^0 + 4 * X^1 - 9.3 * X^2 = 1 * X^0"`, folds both sides into a
//! dense coefficient vector, and reports the solution set.  All arithmetic
//! is exact rational arithmetic: coefficients are fractions of 64-bit
//! integers, and the roots of a quadratic are kept in symbolic form
//! `base + coeff * sqrt(radicand)` so that everything stated about them is
//! exact.

pub mod laws;
pub mod parse;
pub mod reduce;
pub mod render;
pub mod solve;
pub mod rational;

use vstd::prelude::*;

use crate::parse::{parse_spec, EqErrV, EquationError};
use crate::rational::QV;
use crate::reduce::{all_q_wf, is_trimmed, rat_views, reduce_ok, reduce_spec};
use crate::solve::{solve_ok, solve_spec, SolV, SolutionSet};

verus! {

/// The whole pipeline: the reduced coefficient vector and the solution set
/// of an equation, or its first fault — a parse error, or an exact
/// intermediate value that does not fit 64-bit rational form.
pub open spec fn pipeline_spec(s: Seq<u8>) -> Result<(Seq<QV>, SolV), EqErrV> {
    match parse_spec(s) {
        Ok(ts) => {
            if reduce_ok(ts) && solve_ok(reduce_spec(ts)) {
                Ok((reduce_spec(ts), solve_spec(reduce_spec(ts))))
            } else {
                Err(EqErrV::Overflow)
            }
        },
        Err(e) => Err(e),
    }
}

/// Parses, reduces and solves an equation given as bytes.
pub fn solve_equation(s: &[u8]) -> (r: Result<(Vec<rational::Rat>, SolutionSet), EquationError>)
    ensures
        match r {
            Ok((v, sol)) => {
                &&& pipeline_spec(s@) == Ok::<(Seq<QV>, SolV), EqErrV>((rat_views(v@), sol@))
                &&& is_trimmed(rat_views(v@))
                &&& all_q_wf(rat_views(v@))
            },
            Err(e) => pipeline_spec(s@) == Err::<(Seq<QV>, SolV), EqErrV>(e@),
        },
{
    let terms = match parse::parse_equation(s) {
        Ok(ts) => ts,
        Err(e) => {
            return Err(e);
        },
    };
    let coeffs = match reduce::reduce(&terms) {
        Ok(v) => v,
        Err(e) => {
            return Err(e);
        },
    };
    let sol = match solve::solve(&coeffs) {
        Ok(sol) => sol,
        Err(e) => {
            return Err(e);
        },
    };
    Ok((coeffs, sol))
}

} // verus!
