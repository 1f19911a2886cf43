//! Laws of the pipeline, stated and proved over the specification
//! functions of the parser, the reducer and the solver.

use vstd::prelude::*;

use crate::parse::{
    dec_value, mk_term, parse_toks, power_value, pow_scan, dec_scan, q_one_v, DecErrV, TermV,
};
use crate::rational::{q_add, q_div, q_eq, q_mul, q_neg, q_wf, q_zero, QV};
use crate::reduce::{acc_rec, max_power, reduce_spec, trim, zero_seq};
use crate::solve::{solve_spec, SolV};

verus! {

/// Scaling by a power of ten keeps a positive value positive and within
/// 64-bit range wherever it is defined at all.
proof fn lemma_scale_up_range(v: int, e: nat)
    requires
        1 <= v <= i64::MAX,
    ensures
        match crate::parse::scale_up(v, e) {
            Some(x) => 1 <= x <= i64::MAX,
            None => true,
        },
    decreases e,
{
    if e == 0 {
    } else if v * 10 > i64::MAX {
    } else {
        lemma_scale_up_range(v * 10, (e - 1) as nat);
    }
}

/// An exponent part keeps the mantissa non-negative and the scale positive,
/// within 64-bit range.
proof fn lemma_exp_value_range(s: Seq<u8>, m: int, den: int)
    requires
        0 <= m <= i64::MAX,
        1 <= den <= i64::MAX,
    ensures
        match crate::parse::exp_value(s, m, den) {
            Ok((rm, rden)) => 0 <= rm <= i64::MAX && 1 <= rden <= i64::MAX,
            Err(_) => true,
        },
{
    let ds = if s.len() > 0 && (s[0] == 43 || s[0] == 45) {
        s.drop_first()
    } else {
        s
    };
    if ds.len() > 0 && crate::parse::all_digits(ds) && m != 0 {
        if let Some(e) = crate::parse::pow_scan(ds, 0) {
            lemma_scale_up_range(m, e as nat);
            lemma_scale_up_range(den, e as nat);
        }
    }
}

/// A decimal scan keeps its mantissa non-negative and its scale positive,
/// within 64-bit range.
proof fn lemma_dec_scan_range(s: Seq<u8>, seen_dot: bool, seen_digit: bool, m: int, den: int)
    requires
        0 <= m <= i64::MAX,
        1 <= den <= i64::MAX,
    ensures
        match dec_scan(s, seen_dot, seen_digit, m, den) {
            Ok((rm, rden)) => 0 <= rm <= i64::MAX && 1 <= rden <= i64::MAX,
            Err(_) => true,
        },
    decreases s.len(),
{
    if s.len() == 0 {
    } else if crate::parse::is_digit(s[0]) {
        let m2 = m * 10 + (s[0] - 48);
        let den2 = if seen_dot {
            den * 10
        } else {
            den
        };
        if m2 > i64::MAX || den2 > i64::MAX {
        } else {
            lemma_dec_scan_range(s.drop_first(), seen_dot, true, m2, den2);
        }
    } else if s[0] == 46 && !seen_dot {
        lemma_dec_scan_range(s.drop_first(), true, seen_digit, m, den);
    } else if (s[0] == 101 || s[0] == 69) && seen_digit {
        lemma_exp_value_range(s.drop_first(), m, den);
    }
}

/// The value of a decimal token is a well-formed rational in 64-bit range.
pub proof fn lemma_dec_value_wf(t: Seq<u8>, q: QV)
    requires
        dec_value(t) == Ok::<QV, DecErrV>(q),
    ensures
        q_wf(q),
        -i64::MAX <= q.n <= i64::MAX,
        q.d <= i64::MAX,
{
    if t.len() > 0 {
        if t[0] == 43 || t[0] == 45 {
            lemma_dec_scan_range(t.drop_first(), false, false, 0, 1);
        } else {
            lemma_dec_scan_range(t, false, false, 0, 1);
        }
    }
}

/// A scanned exponent stays within 64-bit range.
proof fn lemma_pow_scan_range(s: Seq<u8>, acc: int)
    requires
        0 <= acc <= u64::MAX,
    ensures
        match pow_scan(s, acc) {
            Some(v) => 0 <= v <= u64::MAX,
            None => true,
        },
    decreases s.len(),
{
    if s.len() == 0 {
    } else if crate::parse::is_digit(s[0]) && acc * 10 + (s[0] - 48) <= u64::MAX {
        lemma_pow_scan_range(s.drop_first(), acc * 10 + (s[0] - 48));
    }
}

/// A decimal token is not an operator token and does not start with the
/// variable marker.
proof fn lemma_dec_token_shape(t: Seq<u8>)
    requires
        dec_value(t) is Ok,
    ensures
        t.len() >= 1,
        t[0] != 88,
        t != seq![43u8],
        t != seq![45u8],
        t != seq![61u8],
        t != seq![42u8],
{
    assert(t.len() >= 1);
    if t[0] == 88 {
        assert(dec_scan(t, false, false, 0, 1) is Err);
    }
    if t == seq![43u8] {
        assert(t[0] == 43);
        assert(t.drop_first() =~= Seq::<u8>::empty());
        assert(dec_scan(t.drop_first(), false, false, 0, 1) is Err);
    }
    if t == seq![45u8] {
        assert(t[0] == 45);
        assert(t.drop_first() =~= Seq::<u8>::empty());
        assert(dec_scan(t.drop_first(), false, false, 0, 1) is Err);
    }
    if t == seq![61u8] {
        assert(t[0] == 61);
        assert(dec_scan(t, false, false, 0, 1) is Err);
    }
    if t == seq![42u8] {
        assert(t[0] == 42);
        assert(dec_scan(t, false, false, 0, 1) is Err);
    }
}

/// For every single-monomial equation `c * X^p`, the reduced vector has
/// length `p + 1`, carries exactly `c` at index `p`, and is zero below.
pub proof fn lemma_single_monomial(ct: Seq<u8>, pt: Seq<u8>, c: QV, p: int)
    requires
        dec_value(ct) == Ok::<QV, DecErrV>(c),
        c.n != 0,
        power_value(pt) == Some(p),
    ensures
        ({
            let toks = seq![ct, seq![42u8], seq![88u8, 94u8] + pt];
            let terms = seq![mk_term(false, c, p, false)];
            &&& parse_toks(toks, false, q_one_v(), 0, false, Seq::<TermV>::empty()) == Ok::<
                Seq<TermV>,
                crate::parse::EqErrV,
            >(terms)
            &&& reduce_spec(terms).len() == p + 1
            &&& reduce_spec(terms)[p] == c
            &&& forall|i: int| 0 <= i < p ==> (#[trigger] reduce_spec(terms)[i]).n == 0
        }),
{
    lemma_dec_token_shape(ct);
    lemma_pow_scan_range(pt, 0);
    assert(pt.len() > 0 && pow_scan(pt, 0) == Some(p));
    assert(0 <= p <= u64::MAX);
    let toks = seq![ct, seq![42u8], seq![88u8, 94u8] + pt];
    let xtok = seq![88u8, 94u8] + pt;
    let t = mk_term(false, c, p, false);
    let terms = seq![t];

    // the three parse steps and the final flush, last to first
    assert(toks[0] == ct && toks[1] == seq![42u8] && toks[2] == xtok);
    assert(seq![42u8][0] == 42);
    assert(xtok.len() >= 2 && xtok[0] == 88 && xtok[1] == 94);
    assert(xtok.skip(2) =~= pt);
    assert(Seq::<TermV>::empty().push(t) =~= terms);
    let done = Ok::<Seq<TermV>, crate::parse::EqErrV>(terms);
    assert(parse_toks(Seq::<Seq<u8>>::empty(), false, c, p, false, Seq::<TermV>::empty()) == done);
    assert(seq![xtok].drop_first() =~= Seq::<Seq<u8>>::empty());
    assert(parse_toks(seq![xtok], false, c, 0, false, Seq::<TermV>::empty()) == done);
    assert(seq![seq![42u8], xtok].drop_first() =~= seq![xtok]);
    assert(parse_toks(seq![seq![42u8], xtok], false, c, 0, false, Seq::<TermV>::empty()) == done);
    assert(toks.drop_first() =~= seq![seq![42u8], xtok]);
    assert(parse_toks(toks, false, q_one_v(), 0, false, Seq::<TermV>::empty()) == done);

    // the reduction of the single term
    assert(terms.drop_last() =~= Seq::<TermV>::empty());
    assert(terms.last() == t);
    assert(max_power(Seq::<TermV>::empty()) == 0);
    assert(max_power(terms) == p);
    let zs = zero_seq((p + 1) as nat);
    let stepped = zs.update(p, q_add(zs[p], c));
    assert(terms.drop_first() =~= Seq::<TermV>::empty());
    assert(crate::reduce::contribution(t) == c);
    assert(acc_rec(Seq::<TermV>::empty(), stepped) == stepped);
    assert(acc_rec(terms, zs) == stepped);
    assert(q_add(zs[p], c) == c) by {
        assert(zs[p] == q_zero());
        assert(0 * c.d + c.n * 1 == c.n);
        assert(1 * c.d == c.d);
    }
    assert(stepped.last() == c);
    assert(trim(stepped) == stepped);
    assert(reduce_spec(terms) == stepped);
    assert(stepped.len() == p + 1);
    assert(stepped[p] == c);
    assert forall|i: int| 0 <= i < p implies (#[trigger] reduce_spec(terms)[i]).n == 0 by {
        assert(stepped[i] == zs[i]);
        assert(zs[i] == q_zero());
    }
}

/// Reducing `a * X^0 + b * X^1 = 0` and solving yields the single root
/// `-a/b`, for every pair of decimal tokens with `b` nonzero.
pub proof fn lemma_linear_round_trip(ta: Seq<u8>, tb: Seq<u8>, a: QV, b: QV)
    requires
        dec_value(ta) == Ok::<QV, DecErrV>(a),
        dec_value(tb) == Ok::<QV, DecErrV>(b),
        b.n != 0,
    ensures
        ({
            let toks = seq![
                ta,
                seq![42u8],
                seq![88u8, 94u8, 48u8],
                seq![43u8],
                tb,
                seq![42u8],
                seq![88u8, 94u8, 49u8],
                seq![61u8],
                seq![48u8],
            ];
            let terms = seq![
                mk_term(false, a, 0, false),
                mk_term(false, b, 1, false),
                mk_term(false, (QV { n: 0, d: 1 }), 0, true),
            ];
            &&& parse_toks(toks, false, q_one_v(), 0, false, Seq::<TermV>::empty()) == Ok::<
                Seq<TermV>,
                crate::parse::EqErrV,
            >(terms)
            &&& solve_spec(reduce_spec(terms)) == SolV::OneSolution(q_neg(q_div(a, b)))
        }),
{
    lemma_dec_token_shape(ta);
    lemma_dec_token_shape(tb);
    lemma_dec_value_wf(ta, a);
    lemma_dec_value_wf(tb, b);
    let x0 = seq![88u8, 94u8, 48u8];
    let x1 = seq![88u8, 94u8, 49u8];
    let plus = seq![43u8];
    let star = seq![42u8];
    let eqt = seq![61u8];
    let zt = seq![48u8];
    let toks = seq![ta, star, x0, plus, tb, star, x1, eqt, zt];
    let zq = QV { n: 0, d: 1 };
    let t0 = mk_term(false, a, 0, false);
    let t1 = mk_term(false, b, 1, false);
    let t2 = mk_term(false, zq, 0, true);
    let terms = seq![t0, t1, t2];

    // values of the variable-power and literal tokens
    assert(x0.skip(2) =~= seq![48u8]);
    assert(x1.skip(2) =~= seq![49u8]);
    assert(seq![48u8].drop_first() =~= Seq::<u8>::empty());
    assert(seq![49u8].drop_first() =~= Seq::<u8>::empty());
    assert(pow_scan(Seq::<u8>::empty(), 0) == Some(0int));
    assert(pow_scan(Seq::<u8>::empty(), 1) == Some(1int));
    assert(power_value(x0.skip(2)) == Some(0int));
    assert(power_value(x1.skip(2)) == Some(1int));
    assert(dec_scan(Seq::<u8>::empty(), false, true, 0, 1) == Ok::<(int, int), DecErrV>((0, 1)));
    assert(dec_value(zt) == Ok::<QV, DecErrV>(zq));

    // the nine parse steps, last to first
    assert(seq![t0, t1].push(t2) =~= terms);
    assert(seq![t0].push(t1) =~= seq![t0, t1]);
    assert(Seq::<TermV>::empty().push(t0) =~= seq![t0]);
    let done = Ok::<Seq<TermV>, crate::parse::EqErrV>(terms);
    assert(seq![zt].drop_first() =~= Seq::<Seq<u8>>::empty());
    assert(parse_toks(Seq::<Seq<u8>>::empty(), false, zq, 0, true, seq![t0, t1]) == done);
    assert(parse_toks(seq![zt], false, q_one_v(), 0, true, seq![t0, t1]) == done);
    assert(seq![eqt, zt].drop_first() =~= seq![zt]);
    assert(parse_toks(seq![eqt, zt], false, b, 1, false, seq![t0]) == done);
    assert(seq![x1, eqt, zt].drop_first() =~= seq![eqt, zt]);
    assert(parse_toks(seq![x1, eqt, zt], false, b, 0, false, seq![t0]) == done);
    assert(seq![star, x1, eqt, zt].drop_first() =~= seq![x1, eqt, zt]);
    assert(parse_toks(seq![star, x1, eqt, zt], false, b, 0, false, seq![t0]) == done);
    assert(seq![tb, star, x1, eqt, zt].drop_first() =~= seq![star, x1, eqt, zt]);
    assert(parse_toks(seq![tb, star, x1, eqt, zt], false, q_one_v(), 0, false, seq![t0]) == done);
    assert(seq![plus, tb, star, x1, eqt, zt].drop_first() =~= seq![tb, star, x1, eqt, zt]);
    assert(parse_toks(seq![plus, tb, star, x1, eqt, zt], false, a, 0, false, Seq::<TermV>::empty())
        == done);
    assert(seq![x0, plus, tb, star, x1, eqt, zt].drop_first() =~= seq![plus, tb, star, x1, eqt, zt]);
    assert(parse_toks(seq![x0, plus, tb, star, x1, eqt, zt], false, a, 0, false,
        Seq::<TermV>::empty()) == done);
    assert(seq![star, x0, plus, tb, star, x1, eqt, zt].drop_first() =~= seq![x0, plus, tb, star,
        x1, eqt, zt]);
    assert(parse_toks(seq![star, x0, plus, tb, star, x1, eqt, zt], false, a, 0, false,
        Seq::<TermV>::empty()) == done);
    assert(toks.drop_first() =~= seq![star, x0, plus, tb, star, x1, eqt, zt]);
    assert(toks[0] == ta);
    assert(parse_toks(toks, false, q_one_v(), 0, false, Seq::<TermV>::empty()) == done);

    // reduction: coefficient 0 is a, coefficient 1 is b
    assert(terms.drop_last() =~= seq![t0, t1]);
    assert(seq![t0, t1].drop_last() =~= seq![t0]);
    assert(seq![t0].drop_last() =~= Seq::<TermV>::empty());
    assert(max_power(Seq::<TermV>::empty()) == 0);
    assert(max_power(seq![t0]) == 0);
    assert(max_power(seq![t0, t1]) == 1);
    assert(max_power(terms) == 1);
    let zs = zero_seq(2);
    assert(crate::reduce::contribution(t0) == a);
    assert(crate::reduce::contribution(t1) == b);
    assert(crate::reduce::contribution(t2) == zq);
    let s1 = zs.update(0, q_add(zs[0], a));
    let s2 = s1.update(1, q_add(s1[1], b));
    let s3 = s2.update(0, q_add(s2[0], zq));
    assert(terms.drop_first() =~= seq![t1, t2]);
    assert(seq![t1, t2].drop_first() =~= seq![t2]);
    assert(seq![t2].drop_first() =~= Seq::<TermV>::empty());
    assert(acc_rec(Seq::<TermV>::empty(), s3) == s3);
    assert(acc_rec(seq![t2], s2) == s3);
    assert(acc_rec(seq![t1, t2], s1) == s3);
    assert(acc_rec(terms, zs) == s3);
    assert(s3.len() == 2);
    assert(s2[0] == (QV { n: 0 * a.d + a.n * 1, d: 1 * a.d }));
    assert(s2[0] == a);
    assert(s3[0] == (QV { n: a.n * 1 + 0 * a.d, d: a.d * 1 }));
    assert(s3[0] == a);
    assert(s3[1] == (QV { n: 0 * b.d + b.n * 1, d: 1 * b.d }));
    assert(s3[1] == b);
    assert(s3 =~= seq![a, b]);
    assert(s3.last() == b);
    assert(trim(s3) == s3);
    assert(reduce_spec(terms) == seq![a, b]);

    // solving the linear equation
    assert(solve_spec(seq![a, b]) == SolV::OneSolution(q_neg(q_div(a, b))));
}



} // verus!
