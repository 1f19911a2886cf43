//! Tokenizer and parser for polynomial equations.
//!
//! The input is a byte string of whitespace-separated tokens: the operators
//! `+`, `-`, `=` and `*`, decimal literals, and variable tokens `X` or
//! `X^<non-negative integer>`.  The parser folds the tokens into a sequence
//! of signed monomial terms, tagging each with the side of the equality it
//! appeared on.  Each new term starts with magnitude `1`, power `0` and the
//! sign of the operator that opened it; later coefficient and power tokens
//! overwrite those defaults, and the term is flushed by the next operator
//! (or, for the last term, by the end of the token stream).
//!
//! Decimal literals are an optional sign, then digits with at most one
//! decimal point and at least one digit, then an optional exponent part:
//! `e` or `E`, an optional sign, and digits.  The value stays exact — the
//! exponent scales the numerator or the denominator by a power of ten.  A
//! literal whose mantissa or whose scale does not fit a 64-bit integer is
//! rejected as too large, at the first digit that overflows; non-finite
//! values do not arise.

use vstd::prelude::*;

use crate::rational::{QV, Rat};

verus! {

/// One signed monomial: `coefficient * X^power`, on one side of the `=`.
#[derive(Clone, Copy, Debug)]
pub struct Term {
    /// The sign given by the operator that opened the term.
    pub negative: bool,
    /// The magnitude of the coefficient as written (itself possibly signed).
    pub value: Rat,
    pub power: u64,
    /// Whether the term appeared right of the `=` token.
    pub right: bool,
}

/// Mathematical value of a term, over unbounded integers.
pub ghost struct TermV {
    pub negative: bool,
    pub value: QV,
    pub power: int,
    pub right: bool,
}

impl View for Term {
    type V = TermV;

    open spec fn view(&self) -> TermV {
        TermV {
            negative: self.negative,
            value: self.value@,
            power: self.power as int,
            right: self.right,
        }
    }
}

pub open spec fn term_wf(t: TermV) -> bool {
    &&& t.value.d > 0
    &&& 0 <= t.power <= u64::MAX
}

/// Sequence of term values of a term sequence.
pub open spec fn term_views(s: Seq<Term>) -> Seq<TermV> {
    s.map_values(|t: Term| t@)
}

/// Errors of the parsing stage, each carrying the offending token, plus the
/// overflow error of the later arithmetic stages.
#[derive(Clone, Debug, PartialEq, Eq)]
pub enum EquationError {
    /// A variable token `X^...` whose exponent is not a 64-bit integer.
    BadPower(Vec<u8>),
    /// A token starting with the variable marker but of neither form `X`
    /// nor `X^<integer>`.
    BadVariable(Vec<u8>),
    /// A token that is neither an operator, a variable token, nor a
    /// well-formed decimal literal.
    BadNumber(Vec<u8>),
    /// A well-formed decimal literal that does not fit the 64-bit rational
    /// representation.
    NumberTooLarge(Vec<u8>),
    /// An exact intermediate result of reduction or solving that does not
    /// fit the 64-bit rational representation.
    Overflow,
}

pub ghost enum EqErrV {
    BadPower(Seq<u8>),
    BadVariable(Seq<u8>),
    BadNumber(Seq<u8>),
    NumberTooLarge(Seq<u8>),
    Overflow,
}

impl View for EquationError {
    type V = EqErrV;

    open spec fn view(&self) -> EqErrV {
        match self {
            EquationError::BadPower(t) => EqErrV::BadPower(t@),
            EquationError::BadVariable(t) => EqErrV::BadVariable(t@),
            EquationError::BadNumber(t) => EqErrV::BadNumber(t@),
            EquationError::NumberTooLarge(t) => EqErrV::NumberTooLarge(t@),
            EquationError::Overflow => EqErrV::Overflow,
        }
    }
}

// ------------------------------------------------------------------
// Tokenization
// ------------------------------------------------------------------

/// ASCII whitespace separates tokens.
pub open spec fn is_ws(b: u8) -> bool {
    b == 32 || (9 <= b <= 13)
}

/// The tokens of `s`: maximal runs of non-whitespace bytes, in order.
/// `cur` is the (possibly empty) token being read and `acc` the tokens
/// already read.
pub open spec fn tokens_from(s: Seq<u8>, cur: Seq<u8>, acc: Seq<Seq<u8>>) -> Seq<Seq<u8>>
    decreases s.len(),
{
    if s.len() == 0 {
        if cur.len() > 0 {
            acc.push(cur)
        } else {
            acc
        }
    } else if is_ws(s[0]) {
        if cur.len() > 0 {
            tokens_from(s.drop_first(), seq![], acc.push(cur))
        } else {
            tokens_from(s.drop_first(), seq![], acc)
        }
    } else {
        tokens_from(s.drop_first(), cur.push(s[0]), acc)
    }
}

pub open spec fn tokens_of(s: Seq<u8>) -> Seq<Seq<u8>> {
    tokens_from(s, seq![], seq![])
}

/// Sequence of byte views of a token vector.
pub open spec fn byte_tokens(s: Seq<Vec<u8>>) -> Seq<Seq<u8>> {
    s.map_values(|v: Vec<u8>| v@)
}

fn ws(b: u8) -> (r: bool)
    ensures
        r == is_ws(b),
{
    b == 32 || (9 <= b && b <= 13)
}

/// Splits the input on ASCII whitespace.
pub fn tokenize(s: &[u8]) -> (r: Vec<Vec<u8>>)
    ensures
        byte_tokens(r@) == tokens_of(s@),
{
    let mut out: Vec<Vec<u8>> = Vec::new();
    let mut cur: Vec<u8> = Vec::new();
    let mut i: usize = 0;
    proof {
        assert(byte_tokens(out@) =~= Seq::<Seq<u8>>::empty());
        assert(s@.skip(0) =~= s@);
    }
    while i < s.len()
        invariant
            i <= s.len(),
            tokens_from(s@.skip(i as int), cur@, byte_tokens(out@)) == tokens_of(s@),
        decreases s.len() - i,
    {
        let ghost pre = s@.skip(i as int);
        let ghost cur0 = cur@;
        let ghost out0 = out@;
        proof {
            assert(pre[0] == s@[i as int]);
            assert(pre.drop_first() =~= s@.skip(i as int + 1));
        }
        let b = s[i];
        if ws(b) {
            if cur.len() > 0 {
                out.push(cur);
                cur = Vec::new();
                proof {
                    assert(byte_tokens(out@) =~= byte_tokens(out0).push(cur0));
                    assert(cur@ =~= Seq::<u8>::empty());
                }
            } else {
                proof {
                    assert(cur@ =~= Seq::<u8>::empty());
                }
            }
        } else {
            cur.push(b);
        }
        i = i + 1;
    }
    proof {
        assert(s@.skip(s@.len() as int) =~= Seq::<u8>::empty());
    }
    if cur.len() > 0 {
        let ghost out0 = out@;
        let ghost cur0 = cur@;
        out.push(cur);
        proof {
            assert(byte_tokens(out@) =~= byte_tokens(out0).push(cur0));
        }
    }
    out
}

// ------------------------------------------------------------------
// Exponents
// ------------------------------------------------------------------

pub open spec fn is_digit(b: u8) -> bool {
    48 <= b <= 57
}

/// Value of the digit string `s` accumulated onto `acc`, or `None` if a
/// byte is not a digit or the value leaves 64-bit range.
pub open spec fn pow_scan(s: Seq<u8>, acc: int) -> Option<int>
    decreases s.len(),
{
    if s.len() == 0 {
        Some(acc)
    } else if is_digit(s[0]) && acc * 10 + (s[0] - 48) <= u64::MAX {
        pow_scan(s.drop_first(), acc * 10 + (s[0] - 48))
    } else {
        None
    }
}

/// The exponent denoted by the digit string `s`; `None` when `s` is empty,
/// holds a non-digit, or exceeds 64-bit range.
pub open spec fn power_value(s: Seq<u8>) -> Option<int> {
    if s.len() == 0 {
        None
    } else {
        pow_scan(s, 0)
    }
}

fn pow_scan_exec(s: &[u8], i: usize, acc: u64) -> (r: Option<u64>)
    requires
        i <= s.len(),
    ensures
        match r {
            Some(v) => pow_scan(s@.skip(i as int), acc as int) == Some(v as int),
            None => pow_scan(s@.skip(i as int), acc as int) is None,
        },
    decreases s.len() - i,
{
    if i == s.len() {
        proof {
            assert(s@.skip(i as int) =~= Seq::<u8>::empty());
        }
        Some(acc)
    } else {
        let b = s[i];
        proof {
            assert(s@.skip(i as int)[0] == s@[i as int]);
            assert(s@.skip(i as int).drop_first() =~= s@.skip(i as int + 1));
        }
        if 48 <= b && b <= 57 {
            let d = (b - 48) as u64;
            match acc.checked_mul(10) {
                Some(acc10) => match acc10.checked_add(d) {
                    Some(acc2) => pow_scan_exec(s, i + 1, acc2),
                    None => None,
                },
                None => None,
            }
        } else {
            None
        }
    }
}

/// Parses the digit string after `X^` as a 64-bit exponent.
pub fn parse_power(s: &[u8]) -> (r: Option<u64>)
    ensures
        match r {
            Some(v) => power_value(s@) == Some(v as int),
            None => power_value(s@) is None,
        },
{
    if s.len() == 0 {
        None
    } else {
        proof {
            assert(s@.skip(0) =~= s@);
        }
        pow_scan_exec(s, 0, 0)
    }
}

// ------------------------------------------------------------------
// Decimal literals
// ------------------------------------------------------------------

pub ghost enum DecErrV {
    /// Not a decimal literal.
    Malformed,
    /// A decimal literal whose exact value leaves the 64-bit representation.
    TooLarge,
}

pub enum DecErr {
    Malformed,
    TooLarge,
}

impl View for DecErr {
    type V = DecErrV;

    open spec fn view(&self) -> DecErrV {
        match self {
            DecErr::Malformed => DecErrV::Malformed,
            DecErr::TooLarge => DecErrV::TooLarge,
        }
    }
}

pub open spec fn all_digits(s: Seq<u8>) -> bool {
    forall|i: int| 0 <= i < s.len() ==> is_digit(#[trigger] s[i])
}

/// `v * 10^e`, or `None` as soon as that leaves 64-bit range.
pub open spec fn scale_up(v: int, e: nat) -> Option<int>
    decreases e,
{
    if e == 0 {
        Some(v)
    } else if v * 10 > i64::MAX {
        None
    } else {
        scale_up(v * 10, (e - 1) as nat)
    }
}

/// The exponent part of a literal, after the `e`: an optional sign and
/// digits.  A positive exponent scales the mantissa `m` up, a negative one
/// the denominator `den`; a zero mantissa is returned unscaled, whatever
/// the exponent.  A scaling that leaves 64-bit range is too large.
pub open spec fn exp_value(s: Seq<u8>, m: int, den: int) -> Result<(int, int), DecErrV> {
    let (neg, ds) = if s.len() > 0 && s[0] == 43 {
        (false, s.drop_first())
    } else if s.len() > 0 && s[0] == 45 {
        (true, s.drop_first())
    } else {
        (false, s)
    };
    if ds.len() == 0 || !all_digits(ds) {
        Err(DecErrV::Malformed)
    } else if m == 0 {
        Ok((0, den))
    } else {
        match pow_scan(ds, 0) {
            Some(e) => {
                if neg {
                    match scale_up(den, e as nat) {
                        Some(d2) => Ok((m, d2)),
                        None => Err(DecErrV::TooLarge),
                    }
                } else {
                    match scale_up(m, e as nat) {
                        Some(m2) => Ok((m2, den)),
                        None => Err(DecErrV::TooLarge),
                    }
                }
            },
            None => Err(DecErrV::TooLarge),
        }
    }
}

/// Scan of a decimal literal body (after any sign): digits with at most
/// one decimal point and at least one digit, then an optional exponent
/// part.  `m` is the mantissa read so far and `den` its scale, a power of
/// ten; both are kept within 64-bit range, and the scan stops at the first
/// digit that leaves it.
pub open spec fn dec_scan(s: Seq<u8>, seen_dot: bool, seen_digit: bool, m: int, den: int) -> Result<
    (int, int),
    DecErrV,
>
    decreases s.len(),
{
    if s.len() == 0 {
        if seen_digit {
            Ok((m, den))
        } else {
            Err(DecErrV::Malformed)
        }
    } else if is_digit(s[0]) {
        let m2 = m * 10 + (s[0] - 48);
        let den2 = if seen_dot {
            den * 10
        } else {
            den
        };
        if m2 > i64::MAX || den2 > i64::MAX {
            Err(DecErrV::TooLarge)
        } else {
            dec_scan(s.drop_first(), seen_dot, true, m2, den2)
        }
    } else if s[0] == 46 && !seen_dot {
        dec_scan(s.drop_first(), true, seen_digit, m, den)
    } else if (s[0] == 101 || s[0] == 69) && seen_digit {
        exp_value(s.drop_first(), m, den)
    } else {
        Err(DecErrV::Malformed)
    }
}

/// The rational value of the decimal literal `s`: an optional sign, then
/// digits with at most one decimal point and at least one digit.
pub open spec fn dec_value(s: Seq<u8>) -> Result<QV, DecErrV> {
    if s.len() == 0 {
        Err(DecErrV::Malformed)
    } else {
        let (neg, body) = if s[0] == 43 {
            (false, s.drop_first())
        } else if s[0] == 45 {
            (true, s.drop_first())
        } else {
            (false, s)
        };
        match dec_scan(body, false, false, 0, 1) {
            Ok((m, den)) => Ok(QV { n: if neg { -m } else { m }, d: den }),
            Err(e) => Err(e),
        }
    }
}

fn scale_up_exec(v: i64, e: u64) -> (r: Option<i64>)
    requires
        1 <= v,
    ensures
        match r {
            Some(x) => scale_up(v as int, e as nat) == Some(x as int) && x >= 1,
            None => scale_up(v as int, e as nat) is None,
        },
    decreases e,
{
    if e == 0 {
        Some(v)
    } else {
        match v.checked_mul(10) {
            Some(x) => scale_up_exec(x, e - 1),
            None => None,
        }
    }
}

#[verifier::loop_isolation(false)]
fn exp_value_exec(s: &[u8], i: usize, m: i64, den: i64) -> (r: Result<(i64, i64), DecErr>)
    requires
        i <= s.len(),
        0 <= m,
        1 <= den,
    ensures
        match r {
            Ok((rm, rden)) => exp_value(s@.skip(i as int), m as int, den as int) == Ok::<
                (int, int),
                DecErrV,
            >((rm as int, rden as int)) && rm >= 0 && rden >= 1,
            Err(e) => exp_value(s@.skip(i as int), m as int, den as int) == Err::<
                (int, int),
                DecErrV,
            >(e@),
        },
{
    let ghost tail = s@.skip(i as int);
    let (neg, j): (bool, usize) = if i < s.len() && s[i] == 43 {
        (false, i + 1)
    } else if i < s.len() && s[i] == 45 {
        (true, i + 1)
    } else {
        (false, i)
    };
    let ghost ds = s@.skip(j as int);
    proof {
        if j == i + 1 {
            assert(tail.drop_first() =~= ds);
        } else {
            assert(tail =~= ds);
        }
    }
    if j == s.len() {
        proof {
            assert(ds =~= Seq::<u8>::empty());
        }
        return Err(DecErr::Malformed);
    }
    // the exponent must be digits throughout
    let mut jj: usize = j;
    while jj < s.len()
        invariant
            j <= jj <= s@.len(),
            forall|x: int| j <= x < jj ==> is_digit(#[trigger] s@[x]),
        decreases s@.len() - jj,
    {
        let b = s[jj];
        if b < 48 || b > 57 {
            proof {
                assert(ds[jj as int - j as int] == s@[jj as int]);
                assert(!is_digit(ds[jj as int - j as int]));
            }
            return Err(DecErr::Malformed);
        }
        jj = jj + 1;
    }
    proof {
        assert forall|x: int| 0 <= x < ds.len() implies is_digit(#[trigger] ds[x]) by {
            assert(ds[x] == s@[j + x]);
        }
        assert(all_digits(ds));
    }
    if m == 0 {
        return Ok((0, den));
    }
    match pow_scan_exec(s, j, 0) {
        None => Err(DecErr::TooLarge),
        Some(e) => {
            if neg {
                match scale_up_exec(den, e) {
                    Some(d2) => Ok((m, d2)),
                    None => Err(DecErr::TooLarge),
                }
            } else {
                match scale_up_exec(m, e) {
                    Some(m2) => Ok((m2, den)),
                    None => Err(DecErr::TooLarge),
                }
            }
        },
    }
}

fn dec_scan_exec(s: &[u8], i: usize, seen_dot: bool, seen_digit: bool, m: i64, den: i64) -> (r:
    Result<(i64, i64), DecErr>)
    requires
        i <= s.len(),
        0 <= m,
        1 <= den,
    ensures
        match r {
            Ok((rm, rden)) => dec_scan(s@.skip(i as int), seen_dot, seen_digit, m as int, den as int)
                == Ok::<(int, int), DecErrV>((rm as int, rden as int)) && rm >= 0 && rden >= 1,
            Err(e) => dec_scan(s@.skip(i as int), seen_dot, seen_digit, m as int, den as int) == Err::<
                (int, int),
                DecErrV,
            >(e@),
        },
    decreases s.len() - i,
{
    if i == s.len() {
        proof {
            assert(s@.skip(i as int) =~= Seq::<u8>::empty());
        }
        if seen_digit {
            Ok((m, den))
        } else {
            Err(DecErr::Malformed)
        }
    } else {
        let b = s[i];
        proof {
            assert(s@.skip(i as int)[0] == s@[i as int]);
            assert(s@.skip(i as int).drop_first() =~= s@.skip(i as int + 1));
        }
        if 48 <= b && b <= 57 {
            let d = (b - 48) as i64;
            let m2 = match m.checked_mul(10) {
                Some(m10) => match m10.checked_add(d) {
                    Some(v) => v,
                    None => {
                        return Err(DecErr::TooLarge);
                    },
                },
                None => {
                    return Err(DecErr::TooLarge);
                },
            };
            if seen_dot {
                match den.checked_mul(10) {
                    Some(den2) => dec_scan_exec(s, i + 1, seen_dot, true, m2, den2),
                    None => Err(DecErr::TooLarge),
                }
            } else {
                dec_scan_exec(s, i + 1, seen_dot, true, m2, den)
            }
        } else if b == 46 && !seen_dot {
            dec_scan_exec(s, i + 1, true, seen_digit, m, den)
        } else if (b == 101 || b == 69) && seen_digit {
            exp_value_exec(s, i + 1, m, den)
        } else {
            Err(DecErr::Malformed)
        }
    }
}

/// Parses a decimal literal token into an exact rational.
pub fn parse_decimal(s: &[u8]) -> (r: Result<Rat, EquationError>)
    ensures
        match r {
            Ok(v) => dec_value(s@) == Ok::<QV, DecErrV>(v@) && v.wf(),
            Err(e) => {
                ||| (dec_value(s@) == Err::<QV, DecErrV>(DecErrV::Malformed) && e@
                    == EqErrV::BadNumber(s@))
                ||| (dec_value(s@) == Err::<QV, DecErrV>(DecErrV::TooLarge) && e@
                    == EqErrV::NumberTooLarge(s@))
            },
        },
{
    if s.len() == 0 {
        return Err(EquationError::BadNumber(slice_to_vec(s)));
    }
    let b0 = s[0];
    let (neg, start): (bool, usize) = if b0 == 43 {
        (false, 1)
    } else if b0 == 45 {
        (true, 1)
    } else {
        (false, 0)
    };
    proof {
        if start == 1 {
            assert(s@.drop_first() =~= s@.skip(1));
        } else {
            assert(s@ =~= s@.skip(0));
        }
    }
    match dec_scan_exec(s, start, false, false, 0, 1) {
        Ok((m, den)) => {
            let num = if neg {
                -m
            } else {
                m
            };
            Ok(Rat::new(num, den))
        },
        Err(DecErr::Malformed) => Err(EquationError::BadNumber(slice_to_vec(s))),
        Err(DecErr::TooLarge) => Err(EquationError::NumberTooLarge(slice_to_vec(s))),
    }
}

/// Copy of a byte slice, for carrying an offending token in an error.
fn slice_to_vec(s: &[u8]) -> (r: Vec<u8>)
    ensures
        r@ == s@,
{
    let mut out: Vec<u8> = Vec::new();
    let mut i: usize = 0;
    while i < s.len()
        invariant
            i <= s.len(),
            out@ =~= s@.take(i as int),
        decreases s.len() - i,
    {
        out.push(s[i]);
        i = i + 1;
    }
    proof {
        assert(s@.take(s@.len() as int) =~= s@);
    }
    out
}

// ------------------------------------------------------------------
// The token fold
// ------------------------------------------------------------------

pub open spec fn mk_term(negative: bool, value: QV, power: int, right: bool) -> TermV {
    TermV { negative, value, power, right }
}

pub open spec fn q_one_v() -> QV {
    QV { n: 1, d: 1 }
}

/// The fold of the token stream into terms.  `negative`, `value`, `power`
/// and `right` are the accumulator of the term being read; `acc` holds the
/// terms already flushed.  The final term is flushed when the tokens run
/// out.
pub open spec fn parse_toks(
    toks: Seq<Seq<u8>>,
    negative: bool,
    value: QV,
    power: int,
    right: bool,
    acc: Seq<TermV>,
) -> Result<Seq<TermV>, EqErrV>
    decreases toks.len(),
{
    if toks.len() == 0 {
        Ok(acc.push(mk_term(negative, value, power, right)))
    } else {
        let t = toks[0];
        let rest = toks.drop_first();
        if t.len() >= 1 && t[0] == 88 {
            // 'X'
            if t.len() >= 2 && t[1] == 94 {
                // '^'
                match power_value(t.skip(2)) {
                    Some(p) => parse_toks(rest, negative, value, p, right, acc),
                    None => Err(EqErrV::BadPower(t)),
                }
            } else if t.len() == 1 {
                parse_toks(rest, negative, value, 1, right, acc)
            } else {
                Err(EqErrV::BadVariable(t))
            }
        } else if t == seq![43u8] {
            // '+': flush, then a fresh positive term
            parse_toks(rest, false, q_one_v(), 0, right, acc.push(mk_term(negative, value, power, right)))
        } else if t == seq![45u8] {
            // '-': flush, then a fresh negative term
            parse_toks(rest, true, q_one_v(), 0, right, acc.push(mk_term(negative, value, power, right)))
        } else if t == seq![61u8] {
            // '=': flush, then fresh positive terms on the right side
            parse_toks(rest, false, q_one_v(), 0, true, acc.push(mk_term(negative, value, power, right)))
        } else if t == seq![42u8] {
            // '*': a visual separator
            parse_toks(rest, negative, value, power, right, acc)
        } else {
            match dec_value(t) {
                Ok(q) => parse_toks(rest, negative, q, 0, right, acc),
                Err(DecErrV::Malformed) => Err(EqErrV::BadNumber(t)),
                Err(DecErrV::TooLarge) => Err(EqErrV::NumberTooLarge(t)),
            }
        }
    }
}

/// The terms denoted by an equation, or its first fault.
pub open spec fn parse_spec(s: Seq<u8>) -> Result<Seq<TermV>, EqErrV> {
    parse_toks(tokens_of(s), false, q_one_v(), 0, false, seq![])
}

/// Parses a whole equation into its term sequence.
pub fn parse_equation(s: &[u8]) -> (r: Result<Vec<Term>, EquationError>)
    ensures
        match r {
            Ok(v) => parse_spec(s@) == Ok::<Seq<TermV>, EqErrV>(term_views(v@)) && (forall|i: int|
                0 <= i < v@.len() ==> (#[trigger] v@[i]).value.wf()),
            Err(e) => parse_spec(s@) == Err::<Seq<TermV>, EqErrV>(e@),
        },
{
    let toks = tokenize(s);
    let mut negative: bool = false;
    let mut value: Rat = Rat::from_int(1);
    let mut power: u64 = 0;
    let mut right: bool = false;
    let mut terms: Vec<Term> = Vec::new();
    let mut i: usize = 0;
    proof {
        assert(byte_tokens(toks@).skip(0) =~= byte_tokens(toks@));
        assert(term_views(terms@) =~= Seq::<TermV>::empty());
    }
    while i < toks.len()
        invariant
            i <= toks.len(),
            value.wf(),
            forall|j: int| 0 <= j < terms@.len() ==> (#[trigger] terms@[j]).value.wf(),
            parse_toks(
                byte_tokens(toks@).skip(i as int),
                negative,
                value@,
                power as int,
                right,
                term_views(terms@),
            ) == parse_spec(s@),
        decreases toks.len() - i,
    {
        let ghost pre = byte_tokens(toks@).skip(i as int);
        proof {
            assert(pre[0] == toks@[i as int]@);
            assert(pre.drop_first() =~= byte_tokens(toks@).skip(i as int + 1));
        }
        let ghost terms0 = terms@;
        let ghost flushed = mk_term(negative, value@, power as int, right);
        let tok = &toks[i];
        if tok.len() >= 1 && tok[0] == 88 {
            if tok.len() >= 2 && tok[1] == 94 {
                match parse_power(slice_from(tok, 2)) {
                    Some(p) => {
                        power = p;
                    },
                    None => {
                        return Err(EquationError::BadPower(tok.clone()));
                    },
                }
            } else if tok.len() == 1 {
                power = 1;
            } else {
                return Err(EquationError::BadVariable(tok.clone()));
            }
        } else if tok.len() == 1 && tok[0] == 43 {
            proof {
                assert(tok@ =~= seq![43u8]);
            }
            terms.push(Term { negative, value, power, right });
            proof {
                assert(term_views(terms@) =~= term_views(terms0).push(flushed));
            }
            negative = false;
            value = Rat::from_int(1);
            power = 0;
        } else if tok.len() == 1 && tok[0] == 45 {
            proof {
                assert(tok@ =~= seq![45u8]);
            }
            terms.push(Term { negative, value, power, right });
            proof {
                assert(term_views(terms@) =~= term_views(terms0).push(flushed));
            }
            negative = true;
            value = Rat::from_int(1);
            power = 0;
        } else if tok.len() == 1 && tok[0] == 61 {
            proof {
                assert(tok@ =~= seq![61u8]);
            }
            terms.push(Term { negative, value, power, right });
            proof {
                assert(term_views(terms@) =~= term_views(terms0).push(flushed));
            }
            negative = false;
            value = Rat::from_int(1);
            power = 0;
            right = true;
        } else if tok.len() == 1 && tok[0] == 42 {
            proof {
                assert(tok@ =~= seq![42u8]);
            }
        } else {
            proof {
                assert(tok@ != seq![43u8] && tok@ != seq![45u8] && tok@ != seq![61u8] && tok@
                    != seq![42u8]);
            }
            match parse_decimal(tok.as_slice()) {
                Ok(q) => {
                    value = q;
                    power = 0;
                },
                Err(e) => {
                    return Err(e);
                },
            }
        }
        i = i + 1;
    }
    proof {
        assert(byte_tokens(toks@).skip(toks@.len() as int) =~= Seq::<Seq<u8>>::empty());
    }
    let ghost terms0 = terms@;
    let ghost flushed = mk_term(negative, value@, power as int, right);
    terms.push(Term { negative, value, power, right });
    proof {
        assert(term_views(terms@) =~= term_views(terms0).push(flushed));
    }
    Ok(terms)
}

/// View of the tail of a slice, for relating `slice_from` to `skip`.
pub open spec fn slice_skip_view(v: &Vec<u8>, n: int) -> Seq<u8> {
    v@.skip(n)
}

/// The tail of a byte vector from index `n` on.
fn slice_from(v: &Vec<u8>, n: usize) -> (r: &[u8])
    requires
        n <= v@.len(),
    ensures
        r@ == v@.skip(n as int),
{
    let (_, r) = v.as_slice().split_at(n);
    proof {
        assert(r@ =~= v@.skip(n as int));
    }
    r
}

} // verus!
