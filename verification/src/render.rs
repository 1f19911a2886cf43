//! Presentation: rendering the reduced polynomial as text, the message of
//! each outcome, and the process exit codes.
//!
//! The reduced form is rendered byte for byte as the original line
//! `"Reduced form: c0 * X^0 + c1 * X^1 ... = 0"`: each coefficient is shown
//! by absolute value with a `- ` before a negative one and a `+ ` before a
//! non-negative one except the first.  A coefficient whose denominator is a
//! power of ten (every coefficient the reducer makes from decimal literals)
//! is rendered as an exact decimal with trailing fraction zeros stripped;
//! any other denominator is rendered as a fraction `n/d`.

use vstd::prelude::*;

use crate::parse::EquationError;
use crate::rational::QV;
use crate::reduce::{all_q_wf, rat_views};
use crate::solve::{SolV, SolutionSet};

verus! {

/// The bytes of `"The polynomial is empty: 0 = 0"`.
pub open spec fn lit_empty_poly() -> Seq<u8> {
    seq![84u8, 104u8, 101u8, 32u8, 112u8, 111u8, 108u8, 121u8, 110u8, 111u8, 109u8, 105u8, 97u8, 108u8, 32u8, 105u8, 115u8, 32u8, 101u8, 109u8, 112u8, 116u8, 121u8, 58u8, 32u8, 48u8, 32u8, 61u8, 32u8, 48u8]
}

/// The bytes of `"Reduced form: "`.
pub open spec fn lit_prefix() -> Seq<u8> {
    seq![82u8, 101u8, 100u8, 117u8, 99u8, 101u8, 100u8, 32u8, 102u8, 111u8, 114u8, 109u8, 58u8, 32u8]
}

/// The bytes of `" * X^"`.
pub open spec fn lit_xpow() -> Seq<u8> {
    seq![32u8, 42u8, 32u8, 88u8, 94u8]
}

/// The bytes of `"= 0"`.
pub open spec fn lit_eq_zero() -> Seq<u8> {
    seq![61u8, 32u8, 48u8]
}

/// The decimal digits of `n`, most significant first.
pub open spec fn digits(n: nat) -> Seq<u8>
    decreases n,
{
    if n < 10 {
        seq![(48 + n) as u8]
    } else {
        digits(n / 10).push((48 + n % 10) as u8)
    }
}

/// The last `k` decimal digits of `fr`, zero-padded to width `k`.
pub open spec fn frac_digits(fr: nat, k: nat) -> Seq<u8>
    decreases k,
{
    if k == 0 {
        Seq::<u8>::empty()
    } else {
        frac_digits(fr / 10, (k - 1) as nat).push((48 + fr % 10) as u8)
    }
}

/// `s` with its trailing `'0'` bytes removed.
pub open spec fn strip_zeros(s: Seq<u8>) -> Seq<u8>
    decreases s.len(),
{
    if s.len() > 0 && s.last() == 48 {
        strip_zeros(s.drop_last())
    } else {
        s
    }
}

/// Whether `d` is a power of ten.
pub open spec fn is_pow10(d: int) -> bool
    decreases d,
{
    if d == 1 {
        true
    } else if d >= 10 && d % 10 == 0 {
        is_pow10(d / 10)
    } else {
        false
    }
}

/// The exponent of a power of ten (and a floor logarithm otherwise).
pub open spec fn log10(d: int) -> nat
    decreases d,
{
    if d <= 1 {
        0nat
    } else {
        1 + log10(d / 10)
    }
}

/// Ten to the `k`.
pub open spec fn pow_ten(k: nat) -> int
    decreases k,
{
    if k == 0 {
        1
    } else {
        10 * pow_ten((k - 1) as nat)
    }
}

/// Powers of ten outgrow their exponent.
proof fn lemma_pow_ten_grows(k: nat)
    ensures
        pow_ten(k) > k,
    decreases k,
{
    if k > 0 {
        lemma_pow_ten_grows((k - 1) as nat);
    }
}

/// The magnitude of the numerator.
pub open spec fn abs_num(c: QV) -> nat {
    if c.n < 0 {
        (-c.n) as nat
    } else {
        c.n as nat
    }
}

/// The exact decimal text of `n / d`, for `d` a power of ten: the integer
/// part, then the fractional digits with trailing zeros stripped, with no
/// decimal point when the fraction is zero.
pub open spec fn decimal_text(n: nat, d: int) -> Seq<u8> {
    let f = strip_zeros(frac_digits(n % (d as nat), log10(d)));
    if f.len() > 0 {
        digits(n / (d as nat)) + seq![46u8] + f
    } else {
        digits(n / (d as nat))
    }
}

/// The magnitude of a coefficient: exact decimal where the denominator is a
/// power of ten, the fraction `n/d` otherwise.
pub open spec fn abs_text(c: QV) -> Seq<u8> {
    if is_pow10(c.d) {
        decimal_text(abs_num(c), c.d)
    } else {
        digits(abs_num(c)) + seq![47u8] + digits(c.d as nat)
    }
}

/// The sign prefix of the coefficient at index `i`.
pub open spec fn sign_text(c: QV, i: int) -> Seq<u8> {
    if c.n < 0 {
        seq![45u8, 32u8]
    } else if i > 0 {
        seq![43u8, 32u8]
    } else {
        Seq::<u8>::empty()
    }
}

/// The text of one rendered term, trailing space included.
pub open spec fn term_text(c: QV, i: int) -> Seq<u8> {
    sign_text(c, i) + abs_text(c) + lit_xpow() + digits(i as nat) + seq![32u8]
}

/// The rendered terms of the first `i` coefficients.
pub open spec fn terms_upto(cs: Seq<QV>, i: int) -> Seq<u8>
    decreases i,
{
    if i <= 0 {
        Seq::<u8>::empty()
    } else {
        terms_upto(cs, i - 1) + term_text(cs[i - 1], i - 1)
    }
}

/// The full rendered line for a reduced coefficient vector.
pub open spec fn render_spec(cs: Seq<QV>) -> Seq<u8> {
    if cs.len() == 0 {
        lit_empty_poly()
    } else {
        lit_prefix() + terms_upto(cs, cs.len() as int) + lit_eq_zero()
    }
}

/// Appends the decimal digits of `n`.
fn push_digits(n: u64, out: &mut Vec<u8>)
    ensures
        final(out)@ == old(out)@ + digits(n as nat),
    decreases n,
{
    if n < 10 {
        out.push((48 + n) as u8);
        proof {
            assert(final(out)@ =~= old(out)@ + digits(n as nat));
        }
    } else {
        let ghost mid = out@ + digits((n / 10) as nat);
        push_digits(n / 10, out);
        out.push((48 + n % 10) as u8);
        proof {
            assert(final(out)@ =~= old(out)@ + digits(n as nat));
        }
    }
}

/// Appends the last `k` decimal digits of `fr`, zero-padded.
fn push_frac_digits(fr: u64, k: u64, out: &mut Vec<u8>)
    ensures
        final(out)@ == old(out)@ + frac_digits(fr as nat, k as nat),
    decreases k,
{
    if k == 0 {
        proof {
            assert(final(out)@ =~= old(out)@ + frac_digits(fr as nat, 0));
        }
    } else {
        push_frac_digits(fr / 10, k - 1, out);
        out.push((48 + fr % 10) as u8);
        proof {
            assert(final(out)@ =~= old(out)@ + frac_digits(fr as nat, k as nat));
        }
    }
}

/// Appends the magnitude of one coefficient: exact decimal where the
/// denominator is a power of ten, the fraction `n/d` otherwise.
#[verifier::loop_isolation(false)]
#[verifier::rlimit(30)]
fn push_abs(co: &crate::rational::Rat, out: &mut Vec<u8>)
    requires
        co.wf(),
    ensures
        final(out)@ == old(out)@ + abs_text(co@),
{
    let ghost c = co@;
    let na: u64 = if co.num < 0 {
        (-(co.num as i128)) as u64
    } else {
        co.num as u64
    };
    proof {
        assert(na as nat == abs_num(c));
    }
    // how many of the denominator's factors are tens
    let mut d: i64 = co.den;
    let mut k: u64 = 0;
    proof {
        assert(c.d == d * pow_ten(0));
    }
    while d % 10 == 0
        invariant
            1 <= d <= co.den,
            c.d == d * pow_ten(k as nat),
            is_pow10(c.d) == is_pow10(d as int),
            is_pow10(c.d) ==> log10(c.d) == k + log10(d as int),
        decreases d,
    {
        let ghost d0 = d as int;
        let ghost k0 = k as nat;
        proof {
            lemma_pow_ten_grows(k0);
            assert(pow_ten(k0) >= 1);
            assert(d0 >= 1 ==> d0 * pow_ten(k0) >= pow_ten(k0)) by (nonlinear_arith)
                requires
                    pow_ten(k0) >= 1,
            ;
            assert(k < i64::MAX);
        }
        d = d / 10;
        k = k + 1;
        proof {
            assert(d0 == 10 * (d as int));
            assert((d as int) * pow_ten(k as nat) == (d as int) * (10 * pow_ten(k0)));
            assert((d as int) * (10 * pow_ten(k0)) == (10 * (d as int)) * pow_ten(k0))
                by (nonlinear_arith);
        }
    }
    if d == 1 {
        proof {
            assert(is_pow10(c.d) && log10(c.d) == k);
        }
        let den = co.den as u64;
        let ip = na / den;
        let fr = na % den;
        push_digits(ip, out);
        let mut fv: Vec<u8> = Vec::new();
        push_frac_digits(fr, k, &mut fv);
        while fv.len() > 0 && fv[fv.len() - 1] == 48
            invariant
                strip_zeros(fv@) == strip_zeros(frac_digits(fr as nat, k as nat)),
            decreases fv@.len(),
        {
            let ghost pre = fv@;
            fv.pop();
            proof {
                assert(fv@ =~= pre.drop_last());
            }
        }
        proof {
            assert(fv@ == strip_zeros(frac_digits(fr as nat, k as nat)));
        }
        let ghost whole = old(out)@ + digits(ip as nat);
        if fv.len() > 0 {
            out.push(46);
            let mut j: usize = 0;
            while j < fv.len()
                invariant
                    j <= fv@.len(),
                    out@ == whole + seq![46u8] + fv@.take(j as int),
                decreases fv@.len() - j,
            {
                out.push(fv[j]);
                proof {
                    assert(out@ =~= whole + seq![46u8] + fv@.take(j as int + 1));
                }
                j = j + 1;
            }
            proof {
                assert(fv@.take(fv@.len() as int) =~= fv@);
            }
        }
        proof {
            assert(ip as nat == abs_num(c) / (c.d as nat));
            assert(fr as nat == abs_num(c) % (c.d as nat));
            assert(final(out)@ =~= old(out)@ + abs_text(c));
        }
    } else {
        proof {
            assert(!is_pow10(c.d));
        }
        push_digits(na, out);
        out.push(47);
        push_digits(co.den as u64, out);
        proof {
            assert(final(out)@ =~= old(out)@ + abs_text(c));
        }
    }
}

/// Appends one rendered term, trailing space included.
fn push_term(co: &crate::rational::Rat, i: usize, out: &mut Vec<u8>)
    requires
        co.wf(),
    ensures
        final(out)@ == old(out)@ + term_text(co@, i as int),
{
    let ghost c = co@;
    if co.num < 0 {
        out.push(45);
        out.push(32);
    } else if i > 0 {
        out.push(43);
        out.push(32);
    }
    proof {
        assert(out@ =~= old(out)@ + sign_text(c, i as int));
    }
    let ghost signed = out@;
    push_abs(co, out);
    out.push(32);
    out.push(42);
    out.push(32);
    out.push(88);
    out.push(94);
    push_digits(i as u64, out);
    out.push(32);
    proof {
        assert(final(out)@ =~= old(out)@ + term_text(c, i as int));
    }
}

/// Renders the reduced polynomial, exactly as [`render_spec`] states.
#[verifier::loop_isolation(false)]
pub fn render_polynomial(coeffs: &Vec<crate::rational::Rat>) -> (r: Vec<u8>)
    requires
        all_q_wf(rat_views(coeffs@)),
    ensures
        r@ == render_spec(rat_views(coeffs@)),
{
    let ghost cv = rat_views(coeffs@);
    let mut out: Vec<u8> = Vec::new();
    if coeffs.len() == 0 {
        out.push(84);
        out.push(104);
        out.push(101);
        out.push(32);
        out.push(112);
        out.push(111);
        out.push(108);
        out.push(121);
        out.push(110);
        out.push(111);
        out.push(109);
        out.push(105);
        out.push(97);
        out.push(108);
        out.push(32);
        out.push(105);
        out.push(115);
        out.push(32);
        out.push(101);
        out.push(109);
        out.push(112);
        out.push(116);
        out.push(121);
        out.push(58);
        out.push(32);
        out.push(48);
        out.push(32);
        out.push(61);
        out.push(32);
        out.push(48);
        proof {
            assert(out@ =~= lit_empty_poly());
        }
        return out;
    }
    out.push(82);
    out.push(101);
    out.push(100);
    out.push(117);
    out.push(99);
    out.push(101);
    out.push(100);
    out.push(32);
    out.push(102);
    out.push(111);
    out.push(114);
    out.push(109);
    out.push(58);
    out.push(32);
    proof {
        assert(out@ =~= lit_prefix() + terms_upto(cv, 0));
    }
    let mut i: usize = 0;
    while i < coeffs.len()
        invariant
            i <= coeffs@.len(),
            out@ == lit_prefix() + terms_upto(cv, i as int),
        decreases coeffs@.len() - i,
    {
        proof {
            assert(cv[i as int] == coeffs@[i as int]@ && crate::rational::q_wf(cv[i as int]));
        }
        push_term(&coeffs[i], i, &mut out);
        proof {
            assert(out@ =~= lit_prefix() + terms_upto(cv, i as int + 1));
        }
        i = i + 1;
    }
    out.push(61);
    out.push(32);
    out.push(48);
    proof {
        assert(out@ =~= lit_prefix() + terms_upto(cv, cv.len() as int) + lit_eq_zero());
    }
    out
}

/// The message text of each solving outcome.
pub open spec fn message_view(s: SolV) -> Seq<char> {
    match s {
        SolV::AllReals => "Every real number is a solution"@,
        SolV::Invalid => "The equation provided is invalid. There is no solution."@,
        SolV::Unsolvable(_) => "The polynomial degree is strictly greater than 2, I can't solve."@,
        SolV::OneSolution(_) => "The solution is:"@,
        SolV::TwoSolutions(_, _) => "Discriminant is strictly positive, the two solutions are:"@,
        SolV::NoRealSolution { .. } => "Discriminant is strictly negative. No real solutions"@,
    }
}

/// The message naming the outcome, printed above any solution values.
pub fn outcome_message(s: &SolutionSet) -> (r: &'static str)
    ensures
        r@ == message_view(s@),
{
    match s {
        SolutionSet::AllReals => "Every real number is a solution",
        SolutionSet::Invalid => "The equation provided is invalid. There is no solution.",
        SolutionSet::Unsolvable(_) => "The polynomial degree is strictly greater than 2, I can't solve.",
        SolutionSet::OneSolution(_) => "The solution is:",
        SolutionSet::TwoSolutions(_, _) => "Discriminant is strictly positive, the two solutions are:",
        SolutionSet::NoRealSolution { .. } => "Discriminant is strictly negative. No real solutions",
    }
}

/// The exit code of each solving outcome: solved and degenerate outcomes
/// exit with `0`, a degree above two with `3`, an impossible equation with
/// `4`.
pub open spec fn outcome_exit_code_spec(s: SolV) -> int {
    match s {
        SolV::Unsolvable(_) => 3,
        SolV::Invalid => 4,
        _ => 0,
    }
}

pub fn outcome_exit_code(s: &SolutionSet) -> (c: i32)
    ensures
        c as int == outcome_exit_code_spec(s@),
{
    match s {
        SolutionSet::Unsolvable(_) => 3,
        SolutionSet::Invalid => 4,
        _ => 0,
    }
}

/// The message prefix of each fault; the offending token follows it.
pub open spec fn error_prefix_view(e: crate::parse::EqErrV) -> Seq<char> {
    match e {
        crate::parse::EqErrV::BadPower(_) => "Failed to parse power value: "@,
        crate::parse::EqErrV::BadVariable(_) => "Invalid format: "@,
        crate::parse::EqErrV::BadNumber(_) => "Invalid input: "@,
        crate::parse::EqErrV::NumberTooLarge(_) => "Number out of range: "@,
        crate::parse::EqErrV::Overflow => "Arithmetic overflow while reducing or solving"@,
    }
}

pub fn error_prefix(e: &EquationError) -> (r: &'static str)
    ensures
        r@ == error_prefix_view(e@),
{
    match e {
        EquationError::BadPower(_) => "Failed to parse power value: ",
        EquationError::BadVariable(_) => "Invalid format: ",
        EquationError::BadNumber(_) => "Invalid input: ",
        EquationError::NumberTooLarge(_) => "Number out of range: ",
        EquationError::Overflow => "Arithmetic overflow while reducing or solving",
    }
}

/// The exit code of each fault: a malformed exponent exits with `1`, any
/// other rejected token or an arithmetic overflow with `2`.
pub open spec fn error_exit_code_spec(e: crate::parse::EqErrV) -> int {
    match e {
        crate::parse::EqErrV::BadPower(_) => 1,
        _ => 2,
    }
}

pub fn error_exit_code(e: &EquationError) -> (c: i32)
    ensures
        c as int == error_exit_code_spec(e@),
{
    match e {
        EquationError::BadPower(_) => 1,
        _ => 2,
    }
}

} // verus!
