//! Reduction of a term sequence to a dense coefficient vector.
//!
//! The coefficient of power `p` is the sum of the signed values of all
//! terms of power `p`, with right-hand-side terms sign-flipped (moving them
//! left of the equality).  The vector is indexed by power, its length is
//! one more than the highest power of any term, and trailing zero entries
//! are then trimmed away; the identically-zero polynomial becomes the
//! empty vector.

use vstd::prelude::*;

use crate::parse::{term_views, term_wf, EquationError, Term, TermV};
use crate::rational::{q_add, q_fits, q_sub, q_wf, q_zero, QV, Rat};

verus! {

/// Sequence of rational values of a coefficient vector.
pub open spec fn rat_views(s: Seq<Rat>) -> Seq<QV> {
    s.map_values(|r: Rat| r@)
}

pub open spec fn all_q_wf(s: Seq<QV>) -> bool {
    forall|i: int| 0 <= i < s.len() ==> q_wf(#[trigger] s[i])
}

/// The highest power of any term; `0` when there are none.
pub open spec fn max_power(ts: Seq<TermV>) -> int
    decreases ts.len(),
{
    if ts.len() == 0 {
        0
    } else {
        let m = max_power(ts.drop_last());
        if ts.last().power > m {
            ts.last().power
        } else {
            m
        }
    }
}

pub open spec fn zero_seq(n: nat) -> Seq<QV> {
    Seq::new(n, |i: int| q_zero())
}

/// What a term adds to its coefficient: its value under the sign of its
/// operator, negated once more when it stood right of the equality.
pub open spec fn contribution(t: TermV) -> QV {
    if t.negative != t.right {
        QV { n: -t.value.n, d: t.value.d }
    } else {
        t.value
    }
}

/// Folds the terms into the coefficient sequence `cur`, one at a time.
pub open spec fn acc_rec(ts: Seq<TermV>, cur: Seq<QV>) -> Seq<QV>
    decreases ts.len(),
{
    if ts.len() == 0 {
        cur
    } else {
        let t = ts[0];
        acc_rec(ts.drop_first(), cur.update(t.power, q_add(cur[t.power], contribution(t))))
    }
}

/// Whether every intermediate coefficient of the fold stays within 64-bit
/// rational form.
pub open spec fn acc_fits(ts: Seq<TermV>, cur: Seq<QV>) -> bool
    decreases ts.len(),
{
    if ts.len() == 0 {
        true
    } else {
        let t = ts[0];
        let v = q_add(cur[t.power], contribution(t));
        q_fits(v) && acc_fits(ts.drop_first(), cur.update(t.power, v))
    }
}

/// Removes trailing zero coefficients.
pub open spec fn trim(s: Seq<QV>) -> Seq<QV>
    decreases s.len(),
{
    if s.len() == 0 {
        s
    } else if s.last().n == 0 {
        trim(s.drop_last())
    } else {
        s
    }
}

/// A trimmed vector is empty or ends in a nonzero coefficient.
pub open spec fn is_trimmed(s: Seq<QV>) -> bool {
    s.len() == 0 || s.last().n != 0
}

/// The reduced form of a term sequence: accumulate, then trim.
pub open spec fn reduce_spec(ts: Seq<TermV>) -> Seq<QV> {
    trim(acc_rec(ts, zero_seq((max_power(ts) + 1) as nat)))
}

/// Whether reduction succeeds on this machine: the vector length fits a
/// `usize` and every intermediate sum fits 64-bit rational form.
pub open spec fn reduce_ok(ts: Seq<TermV>) -> bool {
    &&& max_power(ts) + 1 <= usize::MAX
    &&& acc_fits(ts, zero_seq((max_power(ts) + 1) as nat))
}

/// Trimming never unmakes a trimmed vector, and trimming twice is the same
/// as trimming once.
pub proof fn lemma_trim_idempotent(s: Seq<QV>)
    ensures
        is_trimmed(trim(s)),
        trim(trim(s)) == trim(s),
    decreases s.len(),
{
    if s.len() == 0 {
    } else if s.last().n == 0 {
        lemma_trim_idempotent(s.drop_last());
    }
}

/// A trimmed vector is its own trim.
pub proof fn lemma_trim_of_trimmed(s: Seq<QV>)
    requires
        is_trimmed(s),
    ensures
        trim(s) == s,
{
}

/// The trim of a vector keeps well-formedness of every entry.
proof fn lemma_trim_wf(s: Seq<QV>)
    requires
        all_q_wf(s),
    ensures
        all_q_wf(trim(s)),
    decreases s.len(),
{
    if s.len() == 0 {
    } else if s.last().n == 0 {
        assert forall|i: int| 0 <= i < s.drop_last().len() implies q_wf(
            #[trigger] s.drop_last()[i],
        ) by {
            assert(s.drop_last()[i] == s[i]);
        }
        lemma_trim_wf(s.drop_last());
    }
}

/// Every term's power is at most the highest power.
proof fn lemma_max_power_bound(ts: Seq<TermV>, i: int)
    requires
        0 <= i < ts.len(),
    ensures
        ts[i].power <= max_power(ts),
        max_power(ts) >= 0,
    decreases ts.len(),
{
    if i == ts.len() - 1 {
        lemma_max_power_nonneg(ts.drop_last());
    } else {
        lemma_max_power_bound(ts.drop_last(), i);
        assert(ts.drop_last()[i] == ts[i]);
    }
}

proof fn lemma_max_power_nonneg(ts: Seq<TermV>)
    ensures
        max_power(ts) >= 0,
    decreases ts.len(),
{
    if ts.len() > 0 {
        lemma_max_power_nonneg(ts.drop_last());
    }
}

/// Removes trailing zero coefficients of the vector, in place.
pub fn trim_trailing_zeros(c: &mut Vec<Rat>)
    ensures
        rat_views(final(c)@) == trim(rat_views(old(c)@)),
        is_trimmed(rat_views(final(c)@)),
{
    loop
        invariant
            trim(rat_views(c@)) == trim(rat_views(old(c)@)),
        ensures
            trim(rat_views(c@)) == trim(rat_views(old(c)@)),
            is_trimmed(rat_views(c@)),
        decreases c@.len(),
    {
        let n = c.len();
        if n == 0 {
            break ;
        }
        if c[n - 1].num != 0 {
            break ;
        }
        let ghost pre = rat_views(c@);
        c.pop();
        proof {
            assert(rat_views(c@) =~= pre.drop_last());
        }
    }
}

/// Folds the parsed terms into the trimmed coefficient vector.
#[verifier::loop_isolation(false)]
pub fn reduce(terms: &Vec<Term>) -> (r: Result<Vec<Rat>, EquationError>)
    requires
        forall|i: int| 0 <= i < terms@.len() ==> (#[trigger] terms@[i]).value.wf(),
    ensures
        match r {
            Ok(v) => {
                &&& reduce_ok(term_views(terms@))
                &&& rat_views(v@) == reduce_spec(term_views(terms@))
                &&& is_trimmed(rat_views(v@))
                &&& all_q_wf(rat_views(v@))
            },
            Err(e) => e@ == crate::parse::EqErrV::Overflow && !reduce_ok(term_views(terms@)),
        },
{
    let ghost tv = term_views(terms@);
    // highest power of any term
    let mut max: u64 = 0;
    let mut j: usize = 0;
    proof {
        assert(tv.take(0) =~= Seq::<TermV>::empty());
    }
    while j < terms.len()
        invariant
            j <= terms@.len(),
            max as int == max_power(tv.take(j as int)),
        decreases terms@.len() - j,
    {
        proof {
            assert(tv.take(j as int + 1).drop_last() =~= tv.take(j as int));
            assert(tv[j as int] == terms@[j as int]@);
            assert(tv.take(j as int + 1).last() == tv[j as int]);
        }
        if terms[j].power > max {
            max = terms[j].power;
        }
        j = j + 1;
    }
    proof {
        assert(tv.take(terms@.len() as int) =~= tv);
    }
    if max > (usize::MAX - 1) as u64 {
        return Err(EquationError::Overflow);
    }
    let n: usize = (max as usize) + 1;

    // zero-filled coefficient vector
    let mut coeffs: Vec<Rat> = Vec::new();
    let mut k: usize = 0;
    while k < n
        invariant
            k <= n,
            k == coeffs@.len(),
            rat_views(coeffs@) =~= zero_seq(k as nat),
        decreases n - k,
    {
        let ghost cv0 = coeffs@;
        coeffs.push(Rat::zero());
        proof {
            assert forall|x: int| 0 <= x < coeffs@.len() implies rat_views(coeffs@)[x] == zero_seq(
                (k + 1) as nat,
            )[x] by {
                assert(rat_views(coeffs@)[x] == coeffs@[x]@);
                if x < k {
                    assert(coeffs@[x] == cv0[x]);
                    assert(rat_views(cv0)[x] == cv0[x]@);
                }
            }
            assert(rat_views(coeffs@) =~= zero_seq((k + 1) as nat));
        }
        k = k + 1;
    }

    // fold the terms in
    let mut i: usize = 0;
    proof {
        assert(tv.skip(0) =~= tv);
    }
    while i < terms.len()
        invariant
            i <= terms@.len(),
            forall|x: int| 0 <= x < terms@.len() ==> (#[trigger] terms@[x]).value.wf(),
            coeffs@.len() == max_power(tv) + 1,
            all_q_wf(rat_views(coeffs@)),
            tv == term_views(terms@),
            acc_rec(tv.skip(i as int), rat_views(coeffs@)) == acc_rec(tv, zero_seq((max_power(tv)
                + 1) as nat)),
            acc_fits(tv.skip(i as int), rat_views(coeffs@)) == acc_fits(tv, zero_seq((max_power(tv)
                + 1) as nat)),
        decreases terms@.len() - i,
    {
        let ghost pre = tv.skip(i as int);
        proof {
            assert(tv[i as int] == terms@[i as int]@);
            assert(pre[0] == tv[i as int]);
            assert(pre.drop_first() =~= tv.skip(i as int + 1));
            lemma_max_power_bound(tv, i as int);
            assert(terms@[i as int].value.wf());
        }
        let t = &terms[i];
        let idx = t.power as usize;
        let cur = coeffs[idx];
        proof {
            assert(q_wf(rat_views(coeffs@)[idx as int]));
            assert(rat_views(coeffs@)[idx as int] == cur@);
        }
        let stepped = if t.negative != t.right {
            cur.try_sub(&t.value)
        } else {
            cur.try_add(&t.value)
        };
        proof {
            let c = cur@;
            let v = tv[i as int].value;
            assert((-v.n) * c.d == -(v.n * c.d)) by (nonlinear_arith);
            assert(q_sub(c, v) == q_add(c, contribution(tv[i as int])) || tv[i as int].negative
                == tv[i as int].right);
        }
        match stepped {
            Some(v) => {
                let ghost c0 = coeffs@;
                let ghost cv0 = rat_views(coeffs@);
                coeffs[idx] = v;
                proof {
                    assert forall|x: int| 0 <= x < coeffs@.len() implies rat_views(coeffs@)[x]
                        == cv0.update(idx as int, v@)[x] by {
                        assert(rat_views(coeffs@)[x] == coeffs@[x]@);
                        assert(cv0[x] == c0[x]@);
                    }
                    assert(rat_views(coeffs@) =~= cv0.update(tv[i as int].power, v@));
                }
            },
            None => {
                return Err(EquationError::Overflow);
            },
        }
        i = i + 1;
    }
    proof {
        assert(tv.skip(terms@.len() as int) =~= Seq::<TermV>::empty());
        lemma_trim_wf(rat_views(coeffs@));
    }
    trim_trailing_zeros(&mut coeffs);
    Ok(coeffs)
}

} // verus!
