//! An ordered list of linear terms.
//!
//! Duplicate terms over the same variable are not merged when a polynomial
//! is built; each term is kept distinct and consumers sum them lazily
//! (see [`Polynomial::coefficient_of`]).

use vstd::prelude::*;

verus! {

use crate::components::ratio::{
    canon_of, rat_add, rat_eq, rat_fits, rat_zero, rat_wf, Rat, Ratio,
    lemma_rat_add_congruence_left, lemma_rat_eq_trans, lemma_rat_ops_wf,
};
use crate::components::term::Term;
use crate::components::variable::Variable;

#[derive(Clone, Debug, PartialEq, Eq)]
pub struct Polynomial {
    pub terms: Vec<Term>,
}

/// The summed coefficient of `v` across a term list; duplicate terms over
/// the same variable add up.
pub open spec fn coeff_sum(terms: Seq<Term>, v: Variable) -> Rat
    decreases terms.len(),
{
    if terms.len() == 0 {
        rat_zero()
    } else {
        let prev = coeff_sum(terms.drop_last(), v);
        if terms.last().variable == v {
            rat_add(prev, terms.last().coefficient.rat())
        } else {
            prev
        }
    }
}

/// The summed coefficient is a valid rational whenever the terms are.
pub proof fn lemma_coeff_sum_wf(terms: Seq<Term>, v: Variable)
    requires
        forall|i: int| 0 <= i < terms.len() ==> (#[trigger] terms[i]).coefficient.wf(),
    ensures
        rat_wf(coeff_sum(terms, v)),
    decreases terms.len(),
{
    if terms.len() > 0 {
        lemma_coeff_sum_wf(terms.drop_last(), v);
        if terms.last().variable == v {
            lemma_rat_ops_wf(coeff_sum(terms.drop_last(), v), terms.last().coefficient.rat());
        }
    }
}

/// The canonical running sum that summing the coefficients of `v` left to
/// right computes: it starts at zero and, at each matching term, becomes
/// the reduced exact sum of itself and that coefficient.
pub open spec fn canon_sum(terms: Seq<Term>, v: Variable) -> Rat
    decreases terms.len(),
{
    if terms.len() == 0 {
        rat_zero()
    } else {
        let prev = canon_sum(terms.drop_last(), v);
        if terms.last().variable == v {
            canon_of(rat_add(prev, terms.last().coefficient.rat()))
        } else {
            prev
        }
    }
}

/// Whether every intermediate reduced sum along [`canon_sum`] fits the
/// fixed-width representation.
pub open spec fn canon_sum_fits(terms: Seq<Term>, v: Variable) -> bool
    decreases terms.len(),
{
    if terms.len() == 0 {
        true
    } else {
        let prev = canon_sum_fits(terms.drop_last(), v);
        if terms.last().variable == v {
            prev && rat_fits(canon_of(rat_add(canon_sum(terms.drop_last(), v), terms.last().coefficient.rat())))
        } else {
            prev
        }
    }
}

/// If every reduced running sum over a list fits, so does every reduced
/// running sum over each of its prefixes.
pub proof fn lemma_canon_sum_fits_prefix(terms: Seq<Term>, v: Variable, i: int)
    requires
        0 <= i <= terms.len(),
        canon_sum_fits(terms, v),
    ensures
        canon_sum_fits(terms.take(i), v),
    decreases terms.len() - i,
{
    if i == terms.len() {
        assert(terms.take(i) =~= terms);
    } else {
        lemma_canon_sum_fits_prefix(terms, v, i + 1);
        assert(terms.take(i + 1).drop_last() =~= terms.take(i));
    }
}

impl Polynomial {
    /// All coefficients are well-formed rationals.
    pub open spec fn wf(self) -> bool {
        forall|i: int| 0 <= i < self.terms@.len() ==> (#[trigger] self.terms@[i]).coefficient.wf()
    }

    /// The empty polynomial.
    pub fn new() -> (r: Self)
        ensures
            r.terms@.len() == 0,
            r.wf(),
    {
        Self { terms: Vec::new() }
    }

    /// Append one term; nothing is merged.
    pub fn plus(self, term: Term) -> (r: Self)
        ensures
            r.terms@ == self.terms@.push(term),
    {
        let mut terms = self.terms;
        terms.push(term);
        Self { terms }
    }

    /// The exact summed coefficient of `v` over all terms naming it (zero
    /// when none does).  The result is `Some` exactly when every reduced
    /// running sum fits the fixed-width representation, and then holds
    /// precisely the final reduced running sum, value-equal to the lazy
    /// sum [`coeff_sum`].
    pub fn coefficient_of(&self, v: Variable) -> (r: Option<Ratio>)
        requires
            self.wf(),
        ensures
            r matches Some(q) ==> q.wf() && q.rat() == canon_sum(self.terms@, v) && rat_eq(
                q.rat(),
                coeff_sum(self.terms@, v),
            ),
            (r is Some) <==> canon_sum_fits(self.terms@, v),
    {
        let mut acc = Ratio::zero();
        let mut i: usize = 0;
        proof {
            assert(self.terms@.take(0int) =~= Seq::<Term>::empty());
        }
        while i < self.terms.len()
            invariant
                self.wf(),
                i <= self.terms@.len(),
                acc.wf(),
                acc.rat() == canon_sum(self.terms@.take(i as int), v),
                canon_sum_fits(self.terms@.take(i as int), v),
                rat_eq(acc.rat(), coeff_sum(self.terms@.take(i as int), v)),
            decreases self.terms@.len() - i,
        {
            proof {
                assert(self.terms@.take(i as int + 1).drop_last() =~= self.terms@.take(i as int));
                assert(self.terms@.take(i as int + 1).last() == self.terms@[i as int]);
                lemma_coeff_sum_wf(self.terms@.take(i as int), v);
            }
            let term = self.terms[i];
            if term.variable == v {
                let c = term.coefficient;
                match acc.add(c) {
                    Some(s) => {
                        proof {
                            let prev = coeff_sum(self.terms@.take(i as int), v);
                            lemma_rat_add_congruence_left(acc.rat(), prev, c.rat());
                            lemma_rat_ops_wf(acc.rat(), c.rat());
                            lemma_rat_ops_wf(prev, c.rat());
                            lemma_rat_eq_trans(
                                s.rat(),
                                rat_add(acc.rat(), c.rat()),
                                rat_add(prev, c.rat()),
                            );
                        }
                        acc = s;
                    },
                    None => {
                        proof {
                            // The reduced sum at this very term does not
                            // fit, so no complete run of sums can.
                            if canon_sum_fits(self.terms@, v) {
                                lemma_canon_sum_fits_prefix(self.terms@, v, i as int + 1);
                            }
                        }
                        return None;
                    },
                }
            }
            i += 1;
        }
        proof {
            assert(self.terms@.take(self.terms@.len() as int) =~= self.terms@);
        }
        Some(acc)
    }
}

} // verus!
