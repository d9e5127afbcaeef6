//! The simplex tableau and the pivot engine.
//!
//! A [`Table`] holds the ordered variable list (one per coefficient
//! column), the current basis (one entry per constraint row, plus a
//! trailing `Object` entry whose value is the running objective), and the
//! augmented coefficient matrix whose last row holds the negated reduced
//! costs.
//!
//! Solving iterates: while some criterion is negative, select a pivot by
//! Dantzig's rule (most negative criterion column, minimum-ratio row, both
//! with first-index tie-breaking, so the pivot sequence of a fixed problem
//! is unique — see [`lemma_pivot_deterministic`]) and apply a Gauss-Jordan
//! update.  A column with no positive constraint entry means the problem
//! is unbounded; an iteration cap guards against cycling.

use vstd::prelude::*;

verus! {

use crate::Error;
use crate::components::matrix::Matrix;
use crate::components::polynomial::{canon_sum, canon_sum_fits, coeff_sum, lemma_coeff_sum_wf};
use crate::components::ratio::{
    canon_of, lemma_rat_cmp_congruence, lemma_rat_eq_trans, lemma_rat_lt_le_trans,
    lemma_rat_mul_congruence, lemma_rat_neg_congruence, lemma_rat_ops_wf, lemma_rat_sub_congruence,
    rat_div, rat_eq, rat_fits, rat_le, rat_lt, rat_mul, rat_neg, rat_one, rat_sub, rat_wf,
    rat_zero, Rat, Ratio,
};
use crate::components::variable::Variable;
use crate::problem::{
    is_negated_objective, lemma_coeff_sum_negated, lemma_negated_objective_terms, slack_seq,
    std_objective_terms, std_vars, vars_all_normal, Problem,
};

/// One basis entry: the variable currently basic in a row and its value.
#[derive(Clone, Copy, Debug, PartialEq, Eq, Structural)]
pub struct BaseVariable {
    pub variable: Variable,
    pub value: Ratio,
}

/// A selected pivot: leaving row, entering column, and the tableau entry
/// there (always strictly positive when selected by the ratio test).
#[derive(Clone, Copy, Debug, PartialEq, Eq, Structural)]
pub struct Pivot {
    pub row: usize,
    pub column: usize,
    pub value: Ratio,
}

/// The simplex tableau.
#[derive(Clone, Debug, PartialEq, Eq)]
pub struct Table {
    /// One variable per column of `coefficients`, in order.
    pub variables: Vec<Variable>,
    /// One entry per row of `coefficients`: the basis for each constraint
    /// row, then the `Object` sentinel carrying the running objective.
    pub bases: Vec<BaseVariable>,
    /// The constraint rows with one appended objective row of negated
    /// reduced costs.
    pub coefficients: Matrix<Ratio>,
}

/// The solved assignment: every decision variable with its optimal value
/// (non-basic ones exactly zero), and the optimal objective value.
#[derive(Clone, Debug, PartialEq, Eq)]
pub struct Solution {
    pub variables: Vec<(Variable, Ratio)>,
    pub optimal_value: Ratio,
}

/// The decision variables of a list, in order.
pub open spec fn normals_of(s: Seq<Variable>) -> Seq<Variable>
    decreases s.len(),
{
    if s.len() == 0 {
        Seq::empty()
    } else if s.last() is Normal {
        normals_of(s.drop_last()).push(s.last())
    } else {
        normals_of(s.drop_last())
    }
}

impl Table {
    /// Shape validity: matching dimensions, well-formed scalars, at least
    /// the objective row, and the `Object` sentinel in the last basis slot.
    pub open spec fn wf(self) -> bool {
        &&& self.coefficients.wf()
        &&& self.coefficients.entries_wf()
        &&& self.variables@.len() == self.coefficients.row_size
        &&& self.bases@.len() == self.coefficients.column_size
        &&& self.coefficients.column_size >= 1
        &&& forall|i: int| 0 <= i < self.bases@.len() ==> (#[trigger] self.bases@[i]).value.wf()
        &&& self.bases@.last().variable is Object
    }

    /// The number of constraint rows (all rows but the objective row).
    pub open spec fn constraint_rows(self) -> int {
        self.coefficients.column_size - 1
    }

    /// The objective row: the simplex criteria (negated reduced costs).
    pub open spec fn spec_criterions(self) -> Seq<Ratio> {
        self.coefficients.rows@.last()@
    }

    /// Optimal: no criterion is negative.
    pub open spec fn optimal(self) -> bool {
        forall|j: int|
            0 <= j < self.spec_criterions().len()
                ==> !rat_lt((#[trigger] self.spec_criterions()[j]).rat(), rat_zero())
    }

    /// Dantzig's rule, column part: `c` holds the most negative criterion
    /// and is the earliest column to do so.
    pub open spec fn is_entering_column(self, c: int) -> bool {
        &&& 0 <= c < self.spec_criterions().len()
        &&& forall|k: int|
            0 <= k < self.spec_criterions().len()
                ==> rat_le(
                    self.spec_criterions()[c].rat(),
                    (#[trigger] self.spec_criterions()[k]).rat(),
                )
        &&& forall|k: int|
            0 <= k < c ==> rat_lt(
                self.spec_criterions()[c].rat(),
                (#[trigger] self.spec_criterions()[k]).rat(),
            )
    }

    /// Row `i` takes part in the ratio test for column `c`: it is a
    /// constraint row whose entry in that column is strictly positive.
    pub open spec fn eligible(self, c: int, i: int) -> bool {
        &&& 0 <= i < self.constraint_rows()
        &&& rat_lt(rat_zero(), self.coefficients.entry(i, c).rat())
    }

    /// How far the entering variable can grow against row `i`: the row's
    /// basic value divided by its entry in the entering column.
    pub open spec fn increase_bound(self, c: int, i: int) -> Rat {
        rat_div(self.bases@[i].value.rat(), self.coefficients.entry(i, c).rat())
    }

    /// Dantzig's rule, row part: `r` is eligible, minimizes the increase
    /// bound, and is the earliest row to do so.
    pub open spec fn is_leaving_row(self, c: int, r: int) -> bool {
        &&& self.eligible(c, r)
        &&& forall|i: int|
            #[trigger] self.eligible(c, i)
                ==> rat_le(self.increase_bound(c, r), self.increase_bound(c, i))
        &&& forall|i: int|
            0 <= i < r && #[trigger] self.eligible(c, i)
                ==> rat_lt(self.increase_bound(c, r), self.increase_bound(c, i))
    }

    /// The pivot Dantzig's rule selects.
    pub open spec fn is_selected_pivot(self, p: Pivot) -> bool {
        &&& self.is_entering_column(p.column as int)
        &&& self.is_leaving_row(p.column as int, p.row as int)
        &&& p.value == self.coefficients.entry(p.row as int, p.column as int)
    }

    /// Whether the ratio test runs into a bound it cannot represent: some
    /// eligible row of the entering column whose exact increase bound, in
    /// lowest terms, does not fit the fixed-width representation.
    pub open spec fn pivot_search_overflows(self) -> bool {
        exists|c: int, i: int|
            self.is_entering_column(c) && #[trigger] self.eligible(c, i) && !rat_fits(
                canon_of(self.increase_bound(c, i)),
            )
    }

    /// The objective value accumulated so far: the `Object` basis value.
    pub fn object_value(&self) -> (r: Ratio)
        requires
            self.wf(),
        ensures
            r == self.bases@.last().value,
    {
        self.bases[self.bases.len() - 1].value
    }

    /// The simplex criteria: the objective row of the tableau.
    pub fn criterions(&self) -> (r: &Vec<Ratio>)
        requires
            self.wf(),
        ensures
            r@ == self.spec_criterions(),
    {
        &self.coefficients.rows[self.coefficients.rows.len() - 1]
    }

    /// Every criterion in the objective row is a well-formed rational.
    proof fn lemma_criterions_wf(self)
        requires
            self.wf(),
        ensures
            self.spec_criterions().len() == self.coefficients.row_size,
            forall|j: int|
                0 <= j < self.spec_criterions().len()
                    ==> (#[trigger] self.spec_criterions()[j]).wf(),
    {
        let m = self.coefficients.rows@.len() - 1;
        assert forall|j: int| 0 <= j < self.spec_criterions().len() implies (#[trigger] self
            .spec_criterions()[j]).wf() by {
            assert(self.spec_criterions()[j] == self.coefficients.entry(m, j));
        }
    }

    /// Optimality test: true exactly when every criterion is `>= 0`.
    pub fn is_optimal(&self) -> (r: bool)
        requires
            self.wf(),
        ensures
            r == self.optimal(),
    {
        proof {
            self.lemma_criterions_wf();
        }
        let crit = self.criterions();
        let n = crit.len();
        let mut j: usize = 0;
        while j < n
            invariant
                self.wf(),
                crit@ == self.spec_criterions(),
                n == crit@.len(),
                j <= n,
                forall|k: int| 0 <= k < n ==> (#[trigger] crit@[k]).wf(),
                forall|k: int| 0 <= k < j ==> !rat_lt((#[trigger] crit@[k]).rat(), rat_zero()),
            decreases n - j,
        {
            if crit[j].is_neg() {
                return false;
            }
            j += 1;
        }
        true
    }

    /// Select the pivot by Dantzig's rule.  The entering column always
    /// exists (the table is not optimal); `Unbounded` is returned exactly
    /// when that column has no positive constraint entry, `Overflow`
    /// exactly when some eligible row's exact increase bound cannot be
    /// represented, and otherwise the selected pivot is owed.
    pub fn pivot(&self) -> (r: Result<Pivot, Error>)
        requires
            self.wf(),
            !self.optimal(),
        ensures
            match r {
                Ok(p) => self.is_selected_pivot(p),
                Err(e) => e == Error::Unbounded || e == Error::Overflow,
            },
            (exists|c: int|
                #[trigger] self.is_entering_column(c) && (forall|i: int|
                    !(#[trigger] self.eligible(c, i)))) <==> (r == Err::<Pivot, Error>(
                Error::Unbounded,
            )),
            self.pivot_search_overflows() <==> (r == Err::<Pivot, Error>(Error::Overflow)),
    {
        proof {
            self.lemma_criterions_wf();
        }
        let crit = self.criterions();
        let n = crit.len();
        proof {
            // Not optimal, so some criterion is negative and the row is
            // not empty.
            assert(n > 0) by {
                assert(!self.optimal());
            }
        }
        let mut col: usize = 0;
        let mut best = crit[0];
        let mut j: usize = 1;
        while j < n
            invariant
                self.wf(),
                crit@ == self.spec_criterions(),
                n == crit@.len(),
                forall|k: int| 0 <= k < n ==> (#[trigger] crit@[k]).wf(),
                col < j <= n,
                best == crit@[col as int],
                forall|k: int| 0 <= k < j ==> rat_le(best.rat(), (#[trigger] crit@[k]).rat()),
                forall|k: int| 0 <= k < col ==> rat_lt(best.rat(), (#[trigger] crit@[k]).rat()),
            decreases n - j,
        {
            let c = crit[j];
            if c.lt(best) {
                proof {
                    assert forall|k: int| 0 <= k < j implies rat_lt(
                        c.rat(),
                        (#[trigger] crit@[k]).rat(),
                    ) by {
                        lemma_rat_lt_le_trans(c.rat(), best.rat(), crit@[k].rat());
                    }
                }
                col = j;
                best = c;
            }
            j += 1;
        }
        proof {
            assert(self.is_entering_column(col as int));
        }
        let m = self.coefficients.column_size - 1;
        let mut i: usize = 0;
        let mut sel: usize = 0;
        let mut selq: Ratio = Ratio::zero();
        let mut any = false;
        while i < m
            invariant
                self.wf(),
                col < self.coefficients.row_size,
                self.is_entering_column(col as int),
                m == self.constraint_rows(),
                i <= m,
                any ==> {
                    &&& sel < i
                    &&& self.eligible(col as int, sel as int)
                    &&& selq.wf()
                    &&& rat_eq(selq.rat(), self.increase_bound(col as int, sel as int))
                    &&& forall|k: int|
                        0 <= k < i && #[trigger] self.eligible(col as int, k) ==> rat_le(
                            self.increase_bound(col as int, sel as int),
                            self.increase_bound(col as int, k),
                        )
                    &&& forall|k: int|
                        0 <= k < sel && #[trigger] self.eligible(col as int, k) ==> rat_lt(
                            self.increase_bound(col as int, sel as int),
                            self.increase_bound(col as int, k),
                        )
                },
                !any ==> forall|k: int| 0 <= k < i ==> !(#[trigger] self.eligible(col as int, k)),
                forall|k: int|
                    0 <= k < i && #[trigger] self.eligible(col as int, k) ==> rat_fits(
                        canon_of(self.increase_bound(col as int, k)),
                    ),
            decreases m - i,
        {
            let c = self.coefficients.rows[i][col];
            proof {
                assert(c == self.coefficients.entry(i as int, col as int));
                assert(c.wf());
            }
            if c.is_pos() {
                let bi = self.bases[i].value;
                let q = match bi.div(c) {
                    Some(q) => q,
                    None => {
                        proof {
                            // Row `i` is eligible and its exact increase
                            // bound does not fit, so the failure is an
                            // overflow, not unboundedness.
                            assert forall|c2: int| #[trigger] self.is_entering_column(c2)
                                implies !(forall|k: int| !(#[trigger] self.eligible(c2, k))) by {
                                lemma_entering_column_unique(*self, c2, col as int);
                                assert(self.eligible(c2, i as int));
                            }
                            assert(self.eligible(col as int, i as int));
                            assert(!rat_fits(canon_of(self.increase_bound(col as int, i as int))));
                            assert(self.pivot_search_overflows());
                        }
                        return Err(Error::Overflow);
                    },
                };
                proof {
                    lemma_rat_ops_wf(bi.rat(), c.rat());
                    assert(rat_fits(canon_of(self.increase_bound(col as int, i as int))));
                }
                if !any {
                    any = true;
                    sel = i;
                    selq = q;
                } else {
                    proof {
                        lemma_rat_ops_wf(
                            self.bases@[sel as int].value.rat(),
                            self.coefficients.entry(sel as int, col as int).rat(),
                        );
                        lemma_rat_cmp_congruence(
                            q.rat(),
                            self.increase_bound(col as int, i as int),
                            selq.rat(),
                            self.increase_bound(col as int, sel as int),
                        );
                    }
                    if q.lt(selq) {
                        proof {
                            let ib_i = self.increase_bound(col as int, i as int);
                            let ib_sel = self.increase_bound(col as int, sel as int);
                            assert forall|k: int|
                                0 <= k < i && #[trigger] self.eligible(col as int, k)
                                implies rat_lt(ib_i, self.increase_bound(col as int, k)) by {
                                lemma_rat_ops_wf(
                                    self.bases@[k].value.rat(),
                                    self.coefficients.entry(k, col as int).rat(),
                                );
                                lemma_rat_lt_le_trans(
                                    ib_i,
                                    ib_sel,
                                    self.increase_bound(col as int, k),
                                );
                            }
                        }
                        sel = i;
                        selq = q;
                    }
                }
            }
            i += 1;
        }
        if !any {
            proof {
                assert forall|c2: int, k: int| self.is_entering_column(c2) implies !(
                #[trigger] self.eligible(c2, k)) by {
                    lemma_entering_column_unique(*self, c2, col as int);
                }
                assert(!self.pivot_search_overflows());
            }
            return Err(Error::Unbounded);
        }
        let value = self.coefficients.rows[sel][col];
        proof {
            assert(self.is_leaving_row(col as int, sel as int));
            // An eligible row exists, so `Unbounded` is rightly not returned.
            assert forall|c2: int|
                #[trigger] self.is_entering_column(c2) implies !(forall|k: int|
                !(#[trigger] self.eligible(c2, k))) by {
                lemma_entering_column_unique(*self, c2, col as int);
                assert(self.eligible(c2, sel as int));
            }
            // Every eligible increase bound fit, so nothing overflowed.
            assert forall|c2: int, i2: int|
                self.is_entering_column(c2) && #[trigger] self.eligible(c2, i2) implies rat_fits(
                canon_of(self.increase_bound(c2, i2)),
            ) by {
                lemma_entering_column_unique(*self, c2, col as int);
            }
            assert(!self.pivot_search_overflows());
        }
        Ok(Pivot { row: sel, column: col, value })
    }
}

/// The exact reduced entry the Gauss-Jordan update at `(pr, pc)` stores in
/// the pivot row at column `j`: the old entry divided by the pivot value.
pub open spec fn gj_prow_entry(t: Table, pr: int, pc: int, j: int) -> Rat {
    canon_of(rat_div(t.coefficients.entry(pr, j).rat(), t.coefficients.entry(pr, pc).rat()))
}

/// The exact reduced basic value the update stores in the pivot row.
pub open spec fn gj_prow_value(t: Table, pr: int, pc: int) -> Rat {
    canon_of(rat_div(t.bases@[pr].value.rat(), t.coefficients.entry(pr, pc).rat()))
}

/// The exact reduced product of row `i`'s rate with the normalized pivot
/// entry at column `j` — the amount subtracted from entry `(i, j)`.
pub open spec fn gj_prod(t: Table, pr: int, pc: int, i: int, j: int) -> Rat {
    canon_of(rat_mul(t.coefficients.entry(i, pc).rat(), gj_prow_entry(t, pr, pc, j)))
}

/// The exact reduced entry the update stores at `(i, j)` for `i != pr`.
pub open spec fn gj_entry(t: Table, pr: int, pc: int, i: int, j: int) -> Rat {
    canon_of(rat_sub(t.coefficients.entry(i, j).rat(), gj_prod(t, pr, pc, i, j)))
}

/// The exact reduced product of row `i`'s rate with the normalized pivot
/// basic value.
pub open spec fn gj_prod_value(t: Table, pr: int, pc: int, i: int) -> Rat {
    canon_of(rat_mul(t.coefficients.entry(i, pc).rat(), gj_prow_value(t, pr, pc)))
}

/// The exact reduced basic value the update stores in row `i != pr`.
pub open spec fn gj_value(t: Table, pr: int, pc: int, i: int) -> Rat {
    canon_of(rat_sub(t.bases@[i].value.rat(), gj_prod_value(t, pr, pc, i)))
}

/// Whether some exact reduced quantity of the Gauss-Jordan update at
/// `(pr, pc)` — a normalized pivot-row entry or value, a subtracted
/// product, or an updated entry or value — does not fit the fixed-width
/// representation.
pub open spec fn gj_overflows(t: Table, pr: int, pc: int) -> bool {
    let rsz = t.coefficients.row_size as int;
    let csz = t.coefficients.column_size as int;
    ||| exists|j: int| 0 <= j < rsz && !rat_fits(#[trigger] gj_prow_entry(t, pr, pc, j))
    ||| !rat_fits(gj_prow_value(t, pr, pc))
    ||| exists|i: int, j: int|
        0 <= i < csz && i != pr && 0 <= j < rsz && (!rat_fits(#[trigger] gj_prod(t, pr, pc, i, j))
            || !rat_fits(gj_entry(t, pr, pc, i, j)))
    ||| exists|i: int|
        0 <= i < csz && i != pr && (!rat_fits(#[trigger] gj_prod_value(t, pr, pc, i))
            || !rat_fits(gj_value(t, pr, pc, i)))
}

/// How the entries of a tableau after the Gauss-Jordan update at
/// `(pr, pc)` relate to the entries before: the pivot row and its basic
/// value are divided by the pivot value, every other row and basic value
/// loses its rate times the normalized pivot row, so the pivot entry
/// becomes one and the rest of its column zero.  Basis variables are not
/// constrained here.
pub open spec fn gauss_jordan_entries(t0: Table, t1: Table, pr: int, pc: int) -> bool {
    let pv = t0.coefficients.entry(pr, pc).rat();
    &&& t1.coefficients.row_size == t0.coefficients.row_size
    &&& t1.coefficients.column_size == t0.coefficients.column_size
    &&& t1.bases@.len() == t0.bases@.len()
    &&& forall|j: int|
        0 <= j < t1.coefficients.row_size ==> rat_eq(
            (#[trigger] t1.coefficients.entry(pr, j)).rat(),
            rat_div(t0.coefficients.entry(pr, j).rat(), pv),
        )
    &&& rat_eq(t1.bases@[pr].value.rat(), rat_div(t0.bases@[pr].value.rat(), pv))
    &&& forall|i: int, j: int|
        0 <= i < t1.coefficients.column_size && i != pr && 0 <= j < t1.coefficients.row_size
            ==> rat_eq(
            (#[trigger] t1.coefficients.entry(i, j)).rat(),
            rat_sub(
                t0.coefficients.entry(i, j).rat(),
                rat_mul(
                    t0.coefficients.entry(i, pc).rat(),
                    rat_div(t0.coefficients.entry(pr, j).rat(), pv),
                ),
            ),
        )
    &&& forall|i: int|
        0 <= i < t1.bases@.len() && i != pr ==> rat_eq(
            (#[trigger] t1.bases@[i]).value.rat(),
            rat_sub(
                t0.bases@[i].value.rat(),
                rat_mul(
                    t0.coefficients.entry(i, pc).rat(),
                    rat_div(t0.bases@[pr].value.rat(), pv),
                ),
            ),
        )
    &&& rat_eq(t1.coefficients.entry(pr, pc).rat(), rat_one())
    &&& forall|i: int|
        0 <= i < t1.coefficients.column_size && i != pr ==> rat_eq(
            (#[trigger] t1.coefficients.entry(i, pc)).rat(),
            rat_zero(),
        )
}

impl Table {
    /// Apply the Gauss-Jordan update for the given pivot: the pivot row
    /// (its basic value included) is divided by the pivot value, and every
    /// other row — the objective row included — has `rate` times the
    /// normalized pivot row subtracted, where `rate` is that row's entry
    /// in the pivot column.  This makes the pivot entry one and zeroes its
    /// column elsewhere.  The update is transactional: on overflow the
    /// table is left unchanged.
    pub fn update_coefficients(&mut self, pivot: Pivot) -> (r: Result<(), Error>)
        requires
            old(self).wf(),
            pivot.row < old(self).constraint_rows(),
            pivot.column < old(self).coefficients.row_size,
            pivot.value == old(self).coefficients.entry(pivot.row as int, pivot.column as int),
            pivot.value.num != 0,
        ensures
            match r {
                Ok(()) => {
                    &&& final(self).wf()
                    &&& final(self).variables == old(self).variables
                    &&& forall|i: int|
                        0 <= i < final(self).bases@.len() ==> (#[trigger] final(self).bases@[i])
                            .variable == old(self).bases@[i].variable
                    &&& gauss_jordan_entries(
                        *old(self),
                        *final(self),
                        pivot.row as int,
                        pivot.column as int,
                    )
                },
                Err(e) => e == Error::Overflow && *final(self) == *old(self),
            },
            (r == Err::<(), Error>(Error::Overflow)) <==> gj_overflows(
                *old(self),
                pivot.row as int,
                pivot.column as int,
            ),
    {
        let pr = pivot.row;
        let pc = pivot.column;
        let rsz = self.coefficients.row_size;
        let csz = self.coefficients.column_size;
        let pv = pivot.value;
        proof {
            assert(pv == self.coefficients.entry(pr as int, pc as int));
            assert(pv.wf());
        }
        // Normalize the pivot row into fresh storage first; `self` is not
        // touched until every division and subtraction has succeeded.
        let mut nprow: Vec<Ratio> = Vec::new();
        let mut j: usize = 0;
        while j < rsz
            invariant
                self.wf(),
                *self == *old(self),
                pr == pivot.row,
                pc == pivot.column,
                pr < self.constraint_rows(),
                pc < rsz,
                rsz == self.coefficients.row_size,
                pv.wf(),
                pv.num != 0,
                j <= rsz,
                nprow@.len() == j,
                forall|k: int|
                    0 <= k < j ==> (#[trigger] nprow@[k]).wf() && rat_eq(
                        nprow@[k].rat(),
                        rat_div(
                            self.coefficients.entry(pr as int, k).rat(),
                            self.coefficients.entry(pr as int, pc as int).rat(),
                        ),
                    ) && nprow@[k].rat() == gj_prow_entry(*self, pr as int, pc as int, k),
                pv == self.coefficients.entry(pr as int, pc as int),
            decreases rsz - j,
        {
            let e = self.coefficients.rows[pr][j];
            proof {
                assert(e == self.coefficients.entry(pr as int, j as int));
                assert(e.wf());
            }
            let q = match e.div(pv) {
                Some(q) => q,
                None => {
                    proof {
                        assert(!rat_fits(gj_prow_entry(*old(self), pr as int, pc as int, j as int)));
                        assert(gj_overflows(*old(self), pr as int, pc as int));
                    }
                    return Err(Error::Overflow);
                },
            };
            nprow.push(q);
            j += 1;
        }
        let bpr = self.bases[pr].value;
        let npval = match bpr.div(pv) {
            Some(q) => q,
            None => {
                proof {
                    assert(!rat_fits(gj_prow_value(*old(self), pr as int, pc as int)));
                    assert(gj_overflows(*old(self), pr as int, pc as int));
                }
                return Err(Error::Overflow);
            },
        };
        let mut new_rows: Vec<Vec<Ratio>> = Vec::new();
        let mut new_bases: Vec<BaseVariable> = Vec::new();
        let mut i: usize = 0;
        while i < csz
            invariant
                self.wf(),
                *self == *old(self),
                pr == pivot.row,
                pc == pivot.column,
                pr < self.constraint_rows(),
                pc < rsz,
                rsz == self.coefficients.row_size,
                csz == self.coefficients.column_size,
                pv.wf(),
                pv.num != 0,
                pv == self.coefficients.entry(pr as int, pc as int),
                nprow@.len() == rsz,
                forall|k: int|
                    0 <= k < rsz ==> (#[trigger] nprow@[k]).wf() && rat_eq(
                        nprow@[k].rat(),
                        rat_div(
                            self.coefficients.entry(pr as int, k).rat(),
                            self.coefficients.entry(pr as int, pc as int).rat(),
                        ),
                    ) && nprow@[k].rat() == gj_prow_entry(*self, pr as int, pc as int, k),
                npval.wf(),
                rat_eq(
                    npval.rat(),
                    rat_div(
                        self.bases@[pr as int].value.rat(),
                        self.coefficients.entry(pr as int, pc as int).rat(),
                    ),
                ),
                npval.rat() == gj_prow_value(*self, pr as int, pc as int),
                i <= csz,
                new_rows@.len() == i,
                new_bases@.len() == i,
                forall|k: int| 0 <= k < i ==> (#[trigger] new_rows@[k])@.len() == rsz,
                forall|k: int, l: int|
                    0 <= k < i && 0 <= l < rsz ==> (#[trigger] new_rows@[k]@[l]).wf(),
                forall|k: int|
                    0 <= k < i ==> (#[trigger] new_bases@[k]).variable
                        == self.bases@[k].variable && new_bases@[k].value.wf(),
                forall|k: int, l: int|
                    0 <= k < i && k != pr && 0 <= l < rsz ==> rat_fits(
                        #[trigger] gj_prod(*self, pr as int, pc as int, k, l),
                    ) && new_rows@[k]@[l].rat() == gj_entry(*self, pr as int, pc as int, k, l),
                forall|k: int|
                    0 <= k < i && k != pr ==> rat_fits(
                        #[trigger] gj_prod_value(*self, pr as int, pc as int, k),
                    ) && new_bases@[k].value.rat() == gj_value(*self, pr as int, pc as int, k),
                forall|l: int|
                    pr < i && 0 <= l < rsz ==> rat_eq(
                        (#[trigger] new_rows@[pr as int]@[l]).rat(),
                        rat_div(
                            self.coefficients.entry(pr as int, l).rat(),
                            self.coefficients.entry(pr as int, pc as int).rat(),
                        ),
                    ),
                pr < i ==> rat_eq(
                    new_bases@[pr as int].value.rat(),
                    rat_div(
                        self.bases@[pr as int].value.rat(),
                        self.coefficients.entry(pr as int, pc as int).rat(),
                    ),
                ),
                forall|k: int, l: int|
                    0 <= k < i && k != pr && 0 <= l < rsz ==> rat_eq(
                        (#[trigger] new_rows@[k]@[l]).rat(),
                        rat_sub(
                            self.coefficients.entry(k, l).rat(),
                            rat_mul(
                                self.coefficients.entry(k, pc as int).rat(),
                                rat_div(
                                    self.coefficients.entry(pr as int, l).rat(),
                                    self.coefficients.entry(pr as int, pc as int).rat(),
                                ),
                            ),
                        ),
                    ),
                forall|k: int|
                    0 <= k < i && k != pr ==> rat_eq(
                        (#[trigger] new_bases@[k]).value.rat(),
                        rat_sub(
                            self.bases@[k].value.rat(),
                            rat_mul(
                                self.coefficients.entry(k, pc as int).rat(),
                                rat_div(
                                    self.bases@[pr as int].value.rat(),
                                    self.coefficients.entry(pr as int, pc as int).rat(),
                                ),
                            ),
                        ),
                    ),
            decreases csz - i,
        {
            if i == pr {
                let mut row: Vec<Ratio> = Vec::new();
                let mut l: usize = 0;
                while l < rsz
                    invariant
                        nprow@.len() == rsz,
                        l <= rsz,
                        row@.len() == l,
                        forall|k: int| 0 <= k < l ==> (#[trigger] row@[k]) == nprow@[k],
                    decreases rsz - l,
                {
                    row.push(nprow[l]);
                    l += 1;
                }
                new_rows.push(row);
                new_bases.push(BaseVariable { variable: self.bases[i].variable, value: npval });
            } else {
                let rate = self.coefficients.rows[i][pc];
                proof {
                    assert(rate == self.coefficients.entry(i as int, pc as int));
                    assert(rate.wf());
                }
                let mut row: Vec<Ratio> = Vec::new();
                let mut l: usize = 0;
                while l < rsz
                    invariant
                        self.wf(),
                        *self == *old(self),
                        pr == pivot.row,
                        pc == pivot.column,
                        pr < self.constraint_rows(),
                        pc < rsz,
                        rsz == self.coefficients.row_size,
                        csz == self.coefficients.column_size,
                        pv.wf(),
                        pv.num != 0,
                        pv == self.coefficients.entry(pr as int, pc as int),
                        nprow@.len() == rsz,
                        forall|k: int|
                            0 <= k < rsz ==> (#[trigger] nprow@[k]).wf() && rat_eq(
                                nprow@[k].rat(),
                                rat_div(
                                    self.coefficients.entry(pr as int, k).rat(),
                                    self.coefficients.entry(pr as int, pc as int).rat(),
                                ),
                            ) && nprow@[k].rat() == gj_prow_entry(*self, pr as int, pc as int, k),
                        i < csz,
                        i != pr,
                        rate == self.coefficients.entry(i as int, pc as int),
                        rate.wf(),
                        l <= rsz,
                        row@.len() == l,
                        forall|k: int|
                            0 <= k < l ==> (#[trigger] row@[k]).wf() && rat_eq(
                                row@[k].rat(),
                                rat_sub(
                                    self.coefficients.entry(i as int, k).rat(),
                                    rat_mul(
                                        self.coefficients.entry(i as int, pc as int).rat(),
                                        rat_div(
                                            self.coefficients.entry(pr as int, k).rat(),
                                            self.coefficients.entry(pr as int, pc as int).rat(),
                                        ),
                                    ),
                                ),
                            ),
                        forall|k: int|
                            0 <= k < l ==> rat_fits(
                                #[trigger] gj_prod(*self, pr as int, pc as int, i as int, k),
                            ) && row@[k].rat() == gj_entry(*self, pr as int, pc as int, i as int, k),
                    decreases rsz - l,
                {
                    let q = nprow[l];
                    let prod = match rate.mul(q) {
                        Some(p) => p,
                        None => {
                            proof {
                                assert(!rat_fits(gj_prod(
                                    *old(self),
                                    pr as int,
                                    pc as int,
                                    i as int,
                                    l as int,
                                )));
                                assert(gj_overflows(*old(self), pr as int, pc as int));
                            }
                            return Err(Error::Overflow);
                        },
                    };
                    let a = self.coefficients.rows[i][l];
                    proof {
                        assert(a == self.coefficients.entry(i as int, l as int));
                        assert(a.wf());
                        assert(prod.rat() == gj_prod(*self, pr as int, pc as int, i as int, l as int));
                    }
                    let e = match a.sub(prod) {
                        Some(e) => e,
                        None => {
                            proof {
                                assert(!rat_fits(gj_entry(
                                    *old(self),
                                    pr as int,
                                    pc as int,
                                    i as int,
                                    l as int,
                                )));
                                assert(gj_overflows(*old(self), pr as int, pc as int));
                            }
                            return Err(Error::Overflow);
                        },
                    };
                    proof {
                        lemma_gauss_jordan_entry(
                            e.rat(),
                            prod.rat(),
                            rate.rat(),
                            q.rat(),
                            a.rat(),
                            self.coefficients.entry(pr as int, l as int).rat(),
                            pv.rat(),
                        );
                    }
                    row.push(e);
                    l += 1;
                }
                let prodv = match rate.mul(npval) {
                    Some(p) => p,
                    None => {
                        proof {
                            assert(!rat_fits(gj_prod_value(
                                *old(self),
                                pr as int,
                                pc as int,
                                i as int,
                            )));
                            assert(gj_overflows(*old(self), pr as int, pc as int));
                        }
                        return Err(Error::Overflow);
                    },
                };
                let bi = self.bases[i].value;
                let bv = match bi.sub(prodv) {
                    Some(v) => v,
                    None => {
                        proof {
                            assert(prodv.rat() == gj_prod_value(
                                *self,
                                pr as int,
                                pc as int,
                                i as int,
                            ));
                            assert(!rat_fits(gj_value(*old(self), pr as int, pc as int, i as int)));
                            assert(gj_overflows(*old(self), pr as int, pc as int));
                        }
                        return Err(Error::Overflow);
                    },
                };
                proof {
                    assert(prodv.rat() == gj_prod_value(*self, pr as int, pc as int, i as int));
                    assert(bv.rat() == gj_value(*self, pr as int, pc as int, i as int));
                    lemma_gauss_jordan_entry(
                        bv.rat(),
                        prodv.rat(),
                        rate.rat(),
                        npval.rat(),
                        bi.rat(),
                        self.bases@[pr as int].value.rat(),
                        pv.rat(),
                    );
                }
                new_rows.push(row);
                new_bases.push(BaseVariable { variable: self.bases[i].variable, value: bv });
            }
            i += 1;
        }
        let ghost t0 = *self;
        self.coefficients = Matrix { rows: new_rows, row_size: rsz, column_size: csz };
        self.bases = new_bases;
        proof {
            assert(self.bases@.last().variable == t0.bases@.last().variable);
            // The pivot entry has become one and the rest of its column zero.
            let pvr = pv.rat();
            lemma_rat_ops_wf(pvr, pvr);
            lemma_div_self_is_one(pvr);
            lemma_rat_eq_trans(
                self.coefficients.entry(pr as int, pc as int).rat(),
                rat_div(pvr, pvr),
                rat_one(),
            );
            assert forall|i2: int| 0 <= i2 < csz && i2 != pr implies rat_eq(
                (#[trigger] self.coefficients.entry(i2, pc as int)).rat(),
                rat_zero(),
            ) by {
                let a = t0.coefficients.entry(i2, pc as int).rat();
                lemma_pivot_column_zeroed(a, pvr);
                lemma_rat_eq_trans(
                    self.coefficients.entry(i2, pc as int).rat(),
                    rat_sub(a, rat_mul(a, rat_div(pvr, pvr))),
                    rat_zero(),
                );
            }
            assert(gauss_jordan_entries(t0, *self, pr as int, pc as int));
            // Every exact reduced quantity was stored in a fixed-width
            // scalar, so nothing overflowed.
            assert forall|j2: int| 0 <= j2 < rsz implies rat_fits(#[trigger] gj_prow_entry(
                t0,
                pr as int,
                pc as int,
                j2,
            )) by {
                assert(gj_prow_entry(t0, pr as int, pc as int, j2) == nprow@[j2].rat());
            }
            assert(rat_fits(gj_prow_value(t0, pr as int, pc as int)));
            assert forall|i2: int, j2: int|
                0 <= i2 < csz && i2 != pr && 0 <= j2 < rsz implies rat_fits(#[trigger] gj_prod(
                t0,
                pr as int,
                pc as int,
                i2,
                j2,
            )) && rat_fits(gj_entry(t0, pr as int, pc as int, i2, j2)) by {
                assert(gj_entry(t0, pr as int, pc as int, i2, j2) == new_rows@[i2]@[j2].rat());
            }
            assert forall|i2: int| 0 <= i2 < csz && i2 != pr implies rat_fits(
                #[trigger] gj_prod_value(t0, pr as int, pc as int, i2),
            ) && rat_fits(gj_value(t0, pr as int, pc as int, i2)) by {
                assert(gj_value(t0, pr as int, pc as int, i2) == new_bases@[i2].value.rat());
            }
            assert(!gj_overflows(t0, pr as int, pc as int));
        }
        Ok(())
    }
}

/// Dividing a non-zero rational by itself gives one.
proof fn lemma_div_self_is_one(pv: Rat)
    by (nonlinear_arith)
    requires
        rat_wf(pv),
        pv.n != 0,
    ensures
        rat_eq(rat_div(pv, pv), rat_one()),
        rat_wf(rat_div(pv, pv)),
{
}

/// Subtracting `a` times the self-quotient of the pivot value from `a`
/// leaves zero: the Gauss-Jordan step clears the pivot column.
proof fn lemma_pivot_column_zeroed(a: Rat, pv: Rat)
    by (nonlinear_arith)
    requires
        rat_wf(a),
        rat_wf(pv),
        pv.n != 0,
    ensures
        rat_eq(rat_sub(a, rat_mul(a, rat_div(pv, pv))), rat_zero()),
        rat_wf(rat_sub(a, rat_mul(a, rat_div(pv, pv)))),
{
}

/// The congruence chain behind one Gauss-Jordan entry: an exact product
/// and an exact difference computed from the canonical normalized pivot
/// entry equal the textbook formula over the original values.
proof fn lemma_gauss_jordan_entry(e: Rat, prod: Rat, rate: Rat, q: Rat, a: Rat, prj: Rat, pv: Rat)
    requires
        rat_wf(e),
        rat_wf(prod),
        rat_wf(rate),
        rat_wf(q),
        rat_wf(a),
        rat_wf(prj),
        rat_wf(pv),
        pv.n != 0,
        rat_eq(q, rat_div(prj, pv)),
        rat_eq(prod, rat_mul(rate, q)),
        rat_eq(e, rat_sub(a, prod)),
    ensures
        rat_eq(e, rat_sub(a, rat_mul(rate, rat_div(prj, pv)))),
{
    let d = rat_div(prj, pv);
    lemma_rat_ops_wf(prj, pv);
    lemma_rat_ops_wf(rate, q);
    lemma_rat_ops_wf(rate, d);
    lemma_rat_mul_congruence(rate, q, d);
    lemma_rat_eq_trans(prod, rat_mul(rate, q), rat_mul(rate, d));
    lemma_rat_sub_congruence(a, prod, rat_mul(rate, d));
    lemma_rat_ops_wf(a, prod);
    lemma_rat_ops_wf(a, rat_mul(rate, d));
    lemma_rat_eq_trans(e, rat_sub(a, prod), rat_sub(a, rat_mul(rate, d)));
}

/// The length of the leading run of decision variables in a column list.
pub open spec fn normal_prefix_len(s: Seq<Variable>) -> int
    decreases s.len(),
{
    if s.len() == 0 {
        0
    } else if !(s[0] is Normal) {
        0
    } else {
        1 + normal_prefix_len(s.skip(1))
    }
}

/// The normal prefix ends exactly at the first non-decision variable.
proof fn lemma_normal_prefix_len_is_first(s: Seq<Variable>, k: int)
    requires
        0 <= k <= s.len(),
        forall|i: int| 0 <= i < k ==> s[i] is Normal,
        k < s.len() ==> !(s[k] is Normal),
    ensures
        normal_prefix_len(s) == k,
    decreases s.len(),
{
    if s.len() == 0 {
    } else if k == 0 {
    } else {
        lemma_normal_prefix_len_is_first(s.skip(1), k - 1);
    }
}

/// A list of decision variables is its own list of decision variables.
pub proof fn lemma_normals_of_all_normal(s: Seq<Variable>)
    requires
        vars_all_normal(s),
    ensures
        normals_of(s) == s,
    decreases s.len(),
{
    if s.len() == 0 {
        assert(normals_of(s) =~= s);
    } else {
        lemma_normals_of_all_normal(s.drop_last());
        assert(normals_of(s) =~= s);
    }
}

/// Appending slack variables leaves the decision variables unchanged.
pub proof fn lemma_normals_of_with_slacks(s: Seq<Variable>, m: nat)
    ensures
        normals_of(s + slack_seq(m)) == normals_of(s),
    decreases m,
{
    if m == 0 {
        assert(s + slack_seq(0) =~= s);
    } else {
        let t = s + slack_seq(m);
        assert(!(t.last() is Normal));
        assert(t.drop_last() =~= s + slack_seq((m - 1) as nat));
        lemma_normals_of_with_slacks(s, (m - 1) as nat);
    }
}

/// The value of `v` read off the basis rows `i..m`: the basic value of
/// the first row where `v` is basic, and exactly zero when `v` is basic
/// nowhere (a non-basic variable is implicitly zero).
pub open spec fn basic_value_from(bases: Seq<BaseVariable>, m: int, v: Variable, i: int) -> Ratio
    decreases m - i,
{
    if i < 0 || i >= m {
        Ratio { num: 0, den: 1 }
    } else if bases[i].variable == v {
        bases[i].value
    } else {
        basic_value_from(bases, m, v, i + 1)
    }
}

/// The value the tableau assigns to `v`: its basic value, or zero.
pub open spec fn assigned_value(t: Table, v: Variable) -> Ratio {
    basic_value_from(t.bases@, t.constraint_rows(), v, 0)
}

/// The value owed in the objective row under variable `v`: the problem's
/// summed coefficient of `v`, negated when the problem maximizes (the row
/// holds negated reduced costs), and kept as it stands when it minimizes,
/// since standardization has already negated a minimized objective.
pub open spec fn objective_row_val(p: Problem, v: Variable) -> Rat {
    if p.direction is Max {
        rat_neg(coeff_sum(p.objective_function.terms@, v))
    } else {
        coeff_sum(p.objective_function.terms@, v)
    }
}

/// Whether standardization itself overflows: a minimized objective holds
/// a coefficient whose exact reduced negation does not fit.
pub open spec fn std_negation_overflows(p: Problem) -> bool {
    p.direction is Min && exists|i: int|
        0 <= i < p.objective_function.terms@.len() && !rat_fits(canon_of(rat_neg(
            (#[trigger] p.objective_function.terms@[i]).coefficient.rat(),
        )))
}

/// Whether building the objective-row entry under `v` overflows: some
/// exact reduced running coefficient sum over the standardized objective,
/// or the reduced negation of the final sum, does not fit.
pub open spec fn objective_row_overflows(p: Problem, v: Variable) -> bool {
    ||| !canon_sum_fits(std_objective_terms(p), v)
    ||| !rat_fits(canon_of(rat_neg(canon_sum(std_objective_terms(p), v))))
}

/// Whether the standardized variable list fails to end in exactly one
/// basis variable per constraint row.
pub open spec fn table_shape_mismatch(p: Problem) -> bool {
    std_vars(p).len() - normal_prefix_len(std_vars(p)) != p.condition.b@.len()
}

/// What building the initial tableau from `p` yields: the standardized
/// variable columns, the standardized constraint rows, the slack suffix
/// basic with the bounds as values, the `Object` sentinel at zero, and an
/// objective row of negated summed objective coefficients.
pub open spec fn is_initial_table(p: Problem, t: Table) -> bool {
    let vars = std_vars(p);
    let m = p.condition.b@.len() as int;
    &&& t.wf()
    &&& t.variables@ == vars
    &&& t.coefficients.row_size == vars.len()
    &&& t.constraint_rows() == m
    &&& (p.condition.sign is LE ==> forall|i: int|
        0 <= i < m ==> (#[trigger] t.coefficients.rows@[i])@ == p.condition.a.rows@[i]@
            + crate::problem::ident_row(m as nat, i))
    &&& (p.condition.sign is EQ ==> forall|i: int|
        0 <= i < m ==> (#[trigger] t.coefficients.rows@[i])@ == p.condition.a.rows@[i]@)
    &&& forall|i: int| 0 <= i < m ==> (#[trigger] t.bases@[i]).value == p.condition.b@[i]
    &&& forall|i: int|
        0 <= i < m ==> (#[trigger] t.bases@[i]).variable == vars[normal_prefix_len(vars) + i]
    &&& (p.condition.sign is LE ==> forall|i: int|
        0 <= i < m ==> (#[trigger] t.bases@[i]).variable == (Variable::Slack {
            id: (i + 1) as usize,
        }))
    &&& t.bases@.last() == (BaseVariable {
        variable: Variable::Object,
        value: Ratio { num: 0, den: 1 },
    })
    &&& forall|j: int|
        0 <= j < vars.len() ==> rat_eq(
            (#[trigger] t.spec_criterions()[j]).rat(),
            objective_row_val(p, vars[j]),
        )
}

/// One simplex pivot: some selected pivot's Gauss-Jordan update is
/// applied and its entering variable becomes basic in the leaving row.
pub open spec fn is_pivot_step(t0: Table, t1: Table) -> bool {
    exists|p: Pivot|
        {
            &&& #[trigger] t0.is_selected_pivot(p)
            &&& gauss_jordan_entries(t0, t1, p.row as int, p.column as int)
            &&& t1.variables@ == t0.variables@
            &&& t1.bases@[p.row as int].variable == t0.variables@[p.column as int]
            &&& forall|i: int|
                0 <= i < t1.bases@.len() && i != p.row as int ==> (#[trigger] t1.bases@[i])
                    .variable == t0.bases@[i].variable
            &&& t1.wf()
        }
}

/// `t1` arises from `t0` by exactly `k` pivot steps.
pub open spec fn reaches(t0: Table, t1: Table, k: nat) -> bool
    decreases k,
{
    if k == 0 {
        t1 == t0
    } else {
        exists|mid: Table| reaches(t0, mid, (k - 1) as nat) && #[trigger] is_pivot_step(mid, t1)
    }
}

/// The pivot budget: ten pivots per variable column, plus ten.
pub open spec fn iteration_limit(t: Table) -> int {
    10 * (t.variables@.len() as int) + 10
}

/// How a solution reads off a tableau: every decision variable among the
/// columns, in column order, each carrying the value the tableau assigns
/// it (its basic value, or exactly zero), with the `Object` basis value
/// as the optimum.
pub open spec fn is_extracted(t: Table, s: Solution) -> bool {
    &&& s.optimal_value == t.bases@.last().value
    &&& s.variables@.len() == normals_of(t.variables@).len()
    &&& forall|k: int|
        0 <= k < s.variables@.len() ==> (#[trigger] s.variables@[k]).0 == normals_of(
            t.variables@,
        )[k] && s.variables@[k].1 == assigned_value(t, s.variables@[k].0)
            && s.variables@[k].1.wf()
}

/// The Gauss-Jordan entry relation reads only coefficients and basic
/// values, so changing which variables are basic does not affect it.
proof fn lemma_gje_ignores_basis_variables(t0: Table, a: Table, b: Table, pr: int, pc: int)
    requires
        gauss_jordan_entries(t0, a, pr, pc),
        0 <= pr < a.bases@.len(),
        b.coefficients == a.coefficients,
        b.bases@.len() == a.bases@.len(),
        forall|i: int|
            0 <= i < b.bases@.len() ==> (#[trigger] b.bases@[i]).value == a.bases@[i].value,
    ensures
        gauss_jordan_entries(t0, b, pr, pc),
{
    let pv = t0.coefficients.entry(pr, pc).rat();
    assert forall|j: int| 0 <= j < b.coefficients.row_size implies rat_eq(
        (#[trigger] b.coefficients.entry(pr, j)).rat(),
        rat_div(t0.coefficients.entry(pr, j).rat(), pv),
    ) by {
        assert(b.coefficients.entry(pr, j) == a.coefficients.entry(pr, j));
    }
    assert(b.bases@[pr].value == a.bases@[pr].value);
    assert forall|i: int, j: int|
        0 <= i < b.coefficients.column_size && i != pr && 0 <= j < b.coefficients.row_size
        implies rat_eq(
        (#[trigger] b.coefficients.entry(i, j)).rat(),
        rat_sub(
            t0.coefficients.entry(i, j).rat(),
            rat_mul(
                t0.coefficients.entry(i, pc).rat(),
                rat_div(t0.coefficients.entry(pr, j).rat(), pv),
            ),
        ),
    ) by {
        assert(b.coefficients.entry(i, j) == a.coefficients.entry(i, j));
    }
    assert forall|i: int| 0 <= i < b.bases@.len() && i != pr implies rat_eq(
        (#[trigger] b.bases@[i]).value.rat(),
        rat_sub(
            t0.bases@[i].value.rat(),
            rat_mul(
                t0.coefficients.entry(i, pc).rat(),
                rat_div(t0.bases@[pr].value.rat(), pv),
            ),
        ),
    ) by {
        assert(b.bases@[i].value == a.bases@[i].value);
    }
    assert(b.coefficients.entry(pr, pc) == a.coefficients.entry(pr, pc));
    assert forall|i: int| 0 <= i < b.coefficients.column_size && i != pr implies rat_eq(
        (#[trigger] b.coefficients.entry(i, pc)).rat(),
        rat_zero(),
    ) by {
        assert(b.coefficients.entry(i, pc) == a.coefficients.entry(i, pc));
    }
}

impl Table {
    /// Build the initial tableau: standardize the problem, take the
    /// standardized variable columns and constraint matrix, read the
    /// starting basis off the slack suffix of the variable list (each
    /// `<=`-derived equality has exactly one unit-coefficient slack, basic
    /// at its row with the row's bound as value), seat the `Object`
    /// sentinel at zero, and append the objective row of negated summed
    /// objective coefficients (zero for every variable not named there,
    /// slacks included).
    ///
    /// `ShapeError` can arise only for a problem handed over as pure
    /// equalities whose variable list does not end in one non-decision
    /// variable per constraint row; `Overflow` only when an exact negated
    /// coefficient sum cannot be represented.
    pub fn from_problem(problem: Problem) -> (r: Result<Table, Error>)
        requires
            problem.wf(),
            problem.condition.x@.len() + problem.condition.b@.len() <= usize::MAX,
        ensures
            match r {
                Ok(t) => is_initial_table(problem, t),
                Err(e) => {
                    &&& (e == Error::Overflow || e == Error::ShapeError)
                    &&& (e == Error::ShapeError ==> problem.condition.sign is EQ
                        && table_shape_mismatch(problem))
                    &&& (e == Error::Overflow ==> std_negation_overflows(problem) || exists|j: int|
                        0 <= j < std_vars(problem).len() && objective_row_overflows(
                            problem,
                            #[trigger] std_vars(problem)[j],
                        ))
                },
            },
            (!std_negation_overflows(problem) && !table_shape_mismatch(problem) && (forall|j: int|
                0 <= j < std_vars(problem).len() ==> !objective_row_overflows(
                    problem,
                    #[trigger] std_vars(problem)[j],
                ))) ==> r is Ok,
    {
        let ghost p0 = problem;
        let std = match problem.into_standard_form() {
            Ok(p) => p,
            Err(e) => {
                proof {
                    assert(std_negation_overflows(p0));
                }
                return Err(e);
            },
        };
        let Problem { direction: _, objective_function, condition } = std;
        proof {
            assert(condition.x@ == std_vars(p0));
            assert(condition.b@ == p0.condition.b@);
        }
        let variables = condition.x;
        let n = variables.len();
        let m = condition.b.len();
        let mut k: usize = 0;
        while k < n && variables[k].is_normal()
            invariant
                n == variables@.len(),
                k <= n,
                forall|i: int| 0 <= i < k ==> variables@[i] is Normal,
            decreases n - k,
        {
            k += 1;
        }
        proof {
            lemma_normal_prefix_len_is_first(variables@, k as int);
            if p0.condition.sign is LE {
                let xl = p0.condition.x@.len() as int;
                assert forall|i: int| 0 <= i < xl implies variables@[i] is Normal by {
                    assert(variables@[i] == p0.condition.x@[i]);
                }
                if (m as int) > 0 {
                    assert(variables@[xl] == slack_seq(m as nat)[0]);
                }
                lemma_normal_prefix_len_is_first(variables@, xl);
            }
        }
        if n - k != m {
            proof {
                assert(table_shape_mismatch(p0));
            }
            return Err(Error::ShapeError);
        }
        let mut bases: Vec<BaseVariable> = Vec::new();
        let mut i: usize = 0;
        while i < m
            invariant
                n == variables@.len(),
                m == condition.b@.len(),
                k + m == n,
                crate::problem::ratios_wf(condition.b@),
                i <= m,
                bases@.len() == i,
                forall|j: int|
                    0 <= j < i ==> (#[trigger] bases@[j]) == (BaseVariable {
                        variable: variables@[k + j],
                        value: condition.b@[j],
                    }),
            decreases m - i,
        {
            bases.push(BaseVariable { variable: variables[k + i], value: condition.b[i] });
            i += 1;
        }
        bases.push(BaseVariable { variable: Variable::Object, value: Ratio::zero() });
        let mut obj_row: Vec<Ratio> = Vec::new();
        let mut j: usize = 0;
        while j < n
            invariant
                p0 == problem,
                n == variables@.len(),
                variables@ == std_vars(p0),
                objective_function.wf(),
                p0.wf(),
                p0.direction is Max ==> objective_function == p0.objective_function,
                p0.direction is Min ==> is_negated_objective(
                    p0.objective_function.terms@,
                    objective_function.terms@,
                ),
                j <= n,
                obj_row@.len() == j,
                forall|l: int|
                    0 <= l < j ==> (#[trigger] obj_row@[l]).wf() && rat_eq(
                        obj_row@[l].rat(),
                        objective_row_val(p0, variables@[l]),
                    ),
            decreases n - j,
        {
            let v = variables[j];
            let c = match objective_function.coefficient_of(v) {
                Some(c) => c,
                None => {
                    proof {
                        if p0.direction is Min {
                            lemma_negated_objective_terms(
                                p0.objective_function.terms@,
                                objective_function.terms@,
                            );
                        }
                        assert(objective_function.terms@ == std_objective_terms(p0));
                        assert(!canon_sum_fits(std_objective_terms(p0), v));
                        assert(objective_row_overflows(p0, std_vars(p0)[j as int]));
                    }
                    return Err(Error::Overflow);
                },
            };
            let negc = match c.neg() {
                Some(x) => x,
                None => {
                    proof {
                        if p0.direction is Min {
                            lemma_negated_objective_terms(
                                p0.objective_function.terms@,
                                objective_function.terms@,
                            );
                        }
                        assert(objective_function.terms@ == std_objective_terms(p0));
                        assert(c.rat() == canon_sum(std_objective_terms(p0), v));
                        assert(!rat_fits(canon_of(rat_neg(canon_sum(std_objective_terms(p0), v)))));
                        assert(objective_row_overflows(p0, std_vars(p0)[j as int]));
                    }
                    return Err(Error::Overflow);
                },
            };
            proof {
                let s_std = coeff_sum(objective_function.terms@, v);
                let s_orig = coeff_sum(p0.objective_function.terms@, v);
                lemma_coeff_sum_wf(objective_function.terms@, v);
                lemma_coeff_sum_wf(p0.objective_function.terms@, v);
                lemma_rat_neg_congruence(c.rat(), s_std);
                lemma_rat_ops_wf(c.rat(), c.rat());
                lemma_rat_ops_wf(s_std, s_std);
                lemma_rat_eq_trans(negc.rat(), rat_neg(c.rat()), rat_neg(s_std));
                if p0.direction is Min {
                    lemma_coeff_sum_negated(
                        p0.objective_function.terms@,
                        objective_function.terms@,
                        v,
                    );
                    lemma_rat_neg_congruence(s_std, rat_neg(s_orig));
                    lemma_rat_ops_wf(s_orig, s_orig);
                    assert(rat_neg(rat_neg(s_orig)) == s_orig);
                    lemma_rat_eq_trans(negc.rat(), rat_neg(s_std), s_orig);
                }
            }
            obj_row.push(negc);
            j += 1;
        }
        let mut coefficients = condition.a;
        let ghost before_push = coefficients;
        match coefficients.push_row(obj_row) {
            Ok(()) => {},
            Err(_) => {
                // The objective row was built with one entry per variable,
                // so its width always matches.
                proof {
                    assert(false);
                }
                return vstd::pervasive::unreached();
            },
        }
        let t = Table { variables, bases, coefficients };
        proof {
            assert forall|i2: int, j2: int|
                0 <= i2 < t.coefficients.column_size && 0 <= j2 < t.coefficients.row_size
                implies (#[trigger] t.coefficients.entry(i2, j2)).wf() by {
                if i2 < m {
                    assert(t.coefficients.entry(i2, j2) == before_push.entry(i2, j2));
                } else {
                    assert(t.coefficients.entry(i2, j2) == obj_row@[j2]);
                }
            }
            assert(t.bases@.last() == (BaseVariable {
                variable: Variable::Object,
                value: Ratio { num: 0, den: 1 },
            }));
            assert(t.spec_criterions() =~= obj_row@);
            if p0.condition.sign is LE {
                assert forall|i2: int| 0 <= i2 < m implies (#[trigger] t.bases@[i2]).variable
                    == (Variable::Slack { id: (i2 + 1) as usize }) by {
                    assert(t.bases@[i2].variable == variables@[k + i2]);
                    assert(variables@[k + i2] == slack_seq(m as nat)[i2]);
                }
            }
            assert(is_initial_table(p0, t));
        }
        Ok(t)
    }

    /// Read the assignment off the tableau: every decision variable among
    /// the columns, in column order; one that is basic in some constraint
    /// row carries that row's basic value, every other one exactly zero.
    fn extract_solution(&self) -> (s: Solution)
        requires
            self.wf(),
        ensures
            is_extracted(*self, s),
    {
        let n = self.variables.len();
        let m = self.bases.len() - 1;
        let mut pairs: Vec<(Variable, Ratio)> = Vec::new();
        let mut i: usize = 0;
        while i < n
            invariant
                self.wf(),
                n == self.variables@.len(),
                m == self.constraint_rows(),
                i <= n,
                pairs@.len() == normals_of(self.variables@.take(i as int)).len(),
                forall|k: int|
                    0 <= k < pairs@.len() ==> (#[trigger] pairs@[k]).0 == normals_of(
                        self.variables@.take(i as int),
                    )[k] && pairs@[k].1 == assigned_value(*self, pairs@[k].0) && pairs@[k].1.wf(),
            decreases n - i,
        {
            proof {
                assert(self.variables@.take(i as int + 1).drop_last() =~= self.variables@.take(
                    i as int,
                ));
                assert(self.variables@.take(i as int + 1).last() == self.variables@[i as int]);
            }
            let v = self.variables[i];
            if v.is_normal() {
                let mut val = Ratio::zero();
                let mut found = false;
                let mut j: usize = 0;
                while j < m
                    invariant
                        self.wf(),
                        m == self.constraint_rows(),
                        j <= m,
                        !found ==> basic_value_from(self.bases@, m as int, v, 0)
                            == basic_value_from(self.bases@, m as int, v, j as int) && val
                            == (Ratio { num: 0, den: 1 }),
                        found ==> val == basic_value_from(self.bases@, m as int, v, 0)
                            && val.wf(),
                    decreases m - j,
                {
                    if !found {
                        if self.bases[j].variable == v {
                            val = self.bases[j].value;
                            found = true;
                        }
                    }
                    j += 1;
                }
                pairs.push((v, val));
            }
            i += 1;
        }
        proof {
            assert(self.variables@.take(n as int) =~= self.variables@);
        }
        let optimal_value = self.bases[self.bases.len() - 1].value;
        Solution { variables: pairs, optimal_value }
    }

    /// Run the simplex loop: while some criterion is negative, select a
    /// pivot, apply the Gauss-Jordan update, and move the entering
    /// variable into the basis; stop at optimality, within the iteration
    /// budget.  On success the solution reads off an optimal tableau
    /// reached from the start by selected-pivot steps: every decision
    /// variable in column order, basic ones with their basic value, every
    /// other one exactly zero, with the optimum from the `Object` row.
    /// Each failure carries its reached state: `Unbounded` a non-optimal
    /// state whose entering column has no positive constraint entry,
    /// `IterationLimitExceeded` a state the full budget of pivots did not
    /// make optimal, and `Overflow` a state whose exact pivot search or
    /// update leaves the fixed-width representation.
    pub fn solve(self) -> (r: Result<Solution, Error>)
        requires
            self.wf(),
        ensures
            match r {
                Ok(s) => {
                    &&& exists|t1: Table, k: nat|
                        {
                            &&& #[trigger] reaches(self, t1, k)
                            &&& k <= iteration_limit(self)
                            &&& t1.wf()
                            &&& t1.variables@ == self.variables@
                            &&& t1.optimal()
                            &&& is_extracted(t1, s)
                        }
                    &&& s.variables@.len() == normals_of(self.variables@).len()
                    &&& forall|k: int|
                        0 <= k < s.variables@.len() ==> (#[trigger] s.variables@[k]).0
                            == normals_of(self.variables@)[k] && s.variables@[k].1.wf()
                    &&& s.optimal_value.wf()
                },
                Err(e) => {
                    &&& (e == Error::Unbounded || e == Error::IterationLimitExceeded || e
                        == Error::Overflow)
                    &&& (e == Error::Unbounded ==> exists|t1: Table, k: nat|
                        {
                            &&& #[trigger] reaches(self, t1, k)
                            &&& k <= iteration_limit(self)
                            &&& t1.wf()
                            &&& t1.variables@ == self.variables@
                            &&& !t1.optimal()
                            &&& exists|c: int|
                                #[trigger] t1.is_entering_column(c) && (forall|i: int|
                                    !(#[trigger] t1.eligible(c, i)))
                        })
                    &&& (e == Error::IterationLimitExceeded ==> exists|t1: Table|
                        #[trigger] reaches(self, t1, iteration_limit(self) as nat) && t1.wf()
                            && !t1.optimal())
                    &&& (e == Error::Overflow ==> exists|t1: Table, k: nat|
                        {
                            &&& #[trigger] reaches(self, t1, k)
                            &&& k <= iteration_limit(self)
                            &&& t1.wf()
                            &&& !t1.optimal()
                            &&& (t1.pivot_search_overflows() || exists|p: Pivot|
                                #[trigger] t1.is_selected_pivot(p) && gj_overflows(
                                    t1,
                                    p.row as int,
                                    p.column as int,
                                ))
                        })
                },
            },
    {
        let mut t = self;
        proof {
            assert((t.variables.len() as u128) < 0x1_0000_0000_0000_0000u128);
            assert(reaches(self, t, 0));
        }
        let limit: u128 = 10u128 * (t.variables.len() as u128) + 10u128;
        let mut count: u128 = 0;
        while !t.is_optimal()
            invariant
                t.wf(),
                t.variables@ == self.variables@,
                count <= limit,
                limit == iteration_limit(self),
                reaches(self, t, count as nat),
            decreases limit - count,
        {
            if count == limit {
                proof {
                    assert(reaches(self, t, iteration_limit(self) as nat));
                }
                return Err(Error::IterationLimitExceeded);
            }
            let ghost before = t;
            let p = match t.pivot() {
                Ok(p) => p,
                Err(e) => {
                    // The current state, reached in `count` steps, is the
                    // witness for unboundedness or pivot-search overflow.
                    return Err(e);
                },
            };
            proof {
                assert(p.column < t.variables@.len());
                assert(p.row < t.constraint_rows());
                // The selected pivot value is strictly positive.
                assert(p.value.num > 0);
            }
            match t.update_coefficients(p) {
                Ok(()) => {},
                Err(e) => {
                    // The table is unchanged and the selected pivot's
                    // exact update overflowed.
                    return Err(e);
                },
            }
            let ghost mid = t;
            let entering = t.variables[p.column];
            let mut bv = t.bases[p.row];
            bv.variable = entering;
            t.bases[p.row] = bv;
            proof {
                assert(t.bases@.last() == mid.bases@.last());
                assert forall|i: int| 0 <= i < t.bases@.len() implies (#[trigger] t.bases@[i])
                    .value == mid.bases@[i].value by {
                }
                assert(t.wf());
                lemma_gje_ignores_basis_variables(before, mid, t, p.row as int, p.column as int);
                assert(is_pivot_step(before, t)) by {
                    assert(before.is_selected_pivot(p));
                    assert(gauss_jordan_entries(before, t, p.row as int, p.column as int));
                    assert(t.variables@ == before.variables@);
                    assert(t.bases@[p.row as int].variable == before.variables@[p.column as int]);
                    assert forall|i: int| 0 <= i < t.bases@.len() && i != p.row as int
                        implies (#[trigger] t.bases@[i]).variable == before.bases@[i].variable by {
                        assert(t.bases@[i].variable == mid.bases@[i].variable);
                    }
                }
                assert(reaches(self, t, (count + 1) as nat)) by {
                    assert(reaches(self, before, count as nat));
                    assert(is_pivot_step(before, t));
                }
            }
            count = count + 1;
        }
        let s = t.extract_solution();
        proof {
            assert(reaches(self, t, count as nat));
            assert(normals_of(t.variables@) == normals_of(self.variables@));
        }
        Ok(s)
    }
}

/// There is only one entering column for a given tableau state: Dantzig's
/// rule with first-index tie-breaking is deterministic in its column part.
pub proof fn lemma_entering_column_unique(t: Table, c1: int, c2: int)
    requires
        t.is_entering_column(c1),
        t.is_entering_column(c2),
    ensures
        c1 == c2,
{
    if c1 < c2 {
        assert(rat_lt(t.spec_criterions()[c2].rat(), t.spec_criterions()[c1].rat()));
        assert(rat_le(t.spec_criterions()[c1].rat(), t.spec_criterions()[c2].rat()));
    }
    if c2 < c1 {
        assert(rat_lt(t.spec_criterions()[c1].rat(), t.spec_criterions()[c2].rat()));
        assert(rat_le(t.spec_criterions()[c2].rat(), t.spec_criterions()[c1].rat()));
    }
}

/// There is only one leaving row for a given column: the minimum-ratio
/// test with first-index tie-breaking is deterministic in its row part.
pub proof fn lemma_leaving_row_unique(t: Table, c: int, r1: int, r2: int)
    requires
        t.is_leaving_row(c, r1),
        t.is_leaving_row(c, r2),
    ensures
        r1 == r2,
{
    if r1 < r2 {
        assert(rat_lt(t.increase_bound(c, r2), t.increase_bound(c, r1)));
        assert(rat_le(t.increase_bound(c, r1), t.increase_bound(c, r2)));
    }
    if r2 < r1 {
        assert(rat_lt(t.increase_bound(c, r1), t.increase_bound(c, r2)));
        assert(rat_le(t.increase_bound(c, r2), t.increase_bound(c, r1)));
    }
}

/// For a fixed tableau state the selected pivot is unique.  Pivot
/// selection is therefore deterministic, and repeated solves of one
/// problem pass through identical pivot sequences.
pub proof fn lemma_pivot_deterministic(t: Table, p1: Pivot, p2: Pivot)
    requires
        t.is_selected_pivot(p1),
        t.is_selected_pivot(p2),
    ensures
        p1 == p2,
{
    lemma_entering_column_unique(t, p1.column as int, p2.column as int);
    lemma_leaving_row_unique(t, p1.column as int, p1.row as int, p2.row as int);
}

} // verus!
