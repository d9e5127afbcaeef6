//! Linear programming problems and their standard-form conversion.
//!
//! A [`Problem`] couples an objective polynomial, an optimization
//! [`Direction`], and one batch [`Condition`] (`A x <= b` or `A x = b`,
//! row by row).  [`Problem::into_standard_form`] converts any problem into
//! an equivalent maximization over pure equalities: a `Min` objective is
//! negated, and every `<=` row gains one fresh slack variable.
//!
//! The single-condition form built from [`Expression`](crate::expression::Expression)
//! values lives in the [`condition`] submodule.

pub mod condition;

use vstd::prelude::*;

verus! {

use crate::Error;
use crate::components::matrix::Matrix;
use crate::components::polynomial::{coeff_sum, lemma_coeff_sum_wf, Polynomial};
use crate::components::ratio::{
    canon_of, lemma_rat_add_congruence, lemma_rat_add_congruence_left, lemma_rat_eq_trans,
    lemma_rat_ops_wf, rat_add, rat_eq, rat_fits, rat_neg, ratio_of, Ratio,
};
use crate::components::term::Term;
use crate::components::variable::{new_slack, Variable};

/// The comparison a batch condition states between `A x` and `b`.
#[derive(Clone, Copy, Debug, PartialEq, Eq, Structural)]
pub enum Sign {
    EQ,
    LE,
}

/// Whether the objective is maximized or minimized.
#[derive(Clone, Copy, Debug, PartialEq, Eq, Structural)]
pub enum Direction {
    Max,
    Min,
}

/// A batch of linear conditions: for every row `i` of `a`,
/// `a[i] . x  (sign)  b[i]`.
#[derive(Clone, Debug, PartialEq, Eq)]
pub struct Condition {
    pub a: Matrix<Ratio>,
    pub x: Vec<Variable>,
    pub sign: Sign,
    pub b: Vec<Ratio>,
}

/// A linear programming problem.
#[derive(Clone, Debug, PartialEq, Eq)]
pub struct Problem {
    pub direction: Direction,
    pub objective_function: Polynomial,
    pub condition: Condition,
}

/// No variable occurs twice.
pub open spec fn vars_distinct(x: Seq<Variable>) -> bool {
    forall|i: int, j: int| #![trigger x[i], x[j]] 0 <= i < j < x.len() ==> x[i] != x[j]
}

/// Every variable is a decision variable.
pub open spec fn vars_all_normal(x: Seq<Variable>) -> bool {
    forall|i: int| 0 <= i < x.len() ==> x[i] is Normal
}

/// Every scalar in the sequence is a well-formed rational.
pub open spec fn ratios_wf(b: Seq<Ratio>) -> bool {
    forall|i: int| 0 <= i < b.len() ==> b[i].wf()
}

/// The slack variables appended for `m` constraints, in order: ids `1..=m`.
pub open spec fn slack_seq(m: nat) -> Seq<Variable> {
    Seq::new(m, |i: int| Variable::Slack { id: (i + 1) as usize })
}

/// Row `i` of the `m` by `m` identity matrix.
pub open spec fn ident_row(m: nat, i: int) -> Seq<Ratio> {
    Seq::new(
        m,
        |j: int| if j == i {
            Ratio { num: 1, den: 1 }
        } else {
            Ratio { num: 0, den: 1 }
        },
    )
}

/// How a standardized condition relates to the condition it came from:
/// an equality batch is kept as it is; a `<=` batch becomes an equality
/// batch whose matrix gains the identity block of the slack columns and
/// whose variable list gains the matching slack variables.
pub open spec fn is_standardized_condition(from: Condition, to: Condition) -> bool {
    if from.sign is EQ {
        to == from
    } else {
        let m = from.b@.len();
        &&& to.sign is EQ
        &&& to.b@ == from.b@
        &&& to.x@ == from.x@ + slack_seq(m)
        &&& to.a.wf()
        &&& to.a.row_size == from.a.row_size + m
        &&& to.a.column_size == m
        &&& forall|i: int|
            0 <= i < m ==> (#[trigger] to.a.rows@[i])@ == from.a.rows@[i]@ + ident_row(m, i)
    }
}

impl Condition {
    /// Shape validity: the matrix is rectangular and matches the variable
    /// list and the bounds, scalars are well-formed, variables distinct.
    pub open spec fn wf(self) -> bool {
        &&& self.a.wf()
        &&& self.a.entries_wf()
        &&& self.a.row_size == self.x@.len()
        &&& self.a.column_size == self.b@.len()
        &&& ratios_wf(self.b@)
        &&& vars_distinct(self.x@)
    }

    /// Batch constructor for `A x <= b`, row by row.  Rejected when the
    /// matrix shape does not match the variable list or the bounds, when a
    /// variable repeats, or when a variable is not a decision variable.
    pub fn each_le(a: Matrix<Ratio>, x: Vec<Variable>, b: Vec<Ratio>) -> (r: Result<Condition, Error>)
        requires
            a.wf(),
            a.entries_wf(),
            ratios_wf(b@),
        ensures
            match r {
                Ok(c) => {
                    &&& a.row_size == x@.len()
                    &&& a.column_size == b@.len()
                    &&& vars_distinct(x@)
                    &&& vars_all_normal(x@)
                    &&& c == (Condition { a, x, sign: Sign::LE, b })
                    &&& c.wf()
                },
                Err(e) => {
                    &&& e == Error::ShapeError
                    &&& !(a.row_size == x@.len() && a.column_size == b@.len()
                        && vars_distinct(x@) && vars_all_normal(x@))
                },
            },
    {
        if a.row_size != x.len() || a.column_size != b.len() {
            return Err(Error::ShapeError);
        }
        let mut i: usize = 0;
        while i < x.len()
            invariant
                i <= x@.len(),
                forall|k: int| 0 <= k < i ==> x@[k] is Normal,
                forall|k: int, l: int| #![trigger x@[k], x@[l]] 0 <= k < l < x@.len() && k < i ==> x@[k] != x@[l],
            decreases x@.len() - i,
        {
            if !x[i].is_normal() {
                return Err(Error::ShapeError);
            }
            let mut j: usize = i + 1;
            while j < x.len()
                invariant
                    i < x@.len(),
                    i < j,
                    j <= x@.len(),
                    forall|l: int| i < l < j ==> x@[i as int] != x@[l],
                decreases x@.len() - j,
            {
                if x[i] == x[j] {
                    return Err(Error::ShapeError);
                }
                j += 1;
            }
            i += 1;
        }
        Ok(Condition { a, x, sign: Sign::LE, b })
    }

    /// Standardize the batch: an equality batch passes through unchanged;
    /// a `<=` batch gains exactly one slack per row — row `i` is extended
    /// with row `i` of the identity (the single slack coefficient one) —
    /// and no `<=` condition remains.
    pub fn into_standard_form(self) -> (r: Condition)
        requires
            self.wf(),
            self.sign is LE ==> vars_all_normal(self.x@),
            self.x@.len() + self.b@.len() <= usize::MAX,
        ensures
            is_standardized_condition(self, r),
            r.sign is EQ,
            r.wf(),
    {
        if matches!(self.sign, Sign::EQ) {
            return self;
        }
        let m = self.b.len();
        let ghost from = self;
        let Condition { a, x, sign: _, b } = self;
        let ident = Matrix::<Ratio>::identity(m);
        let a2 = match a.try_concat(ident) {
            Ok(a2) => a2,
            Err(_) => {
                // Both matrices have one row per bound, so the
                // concatenation cannot be rejected.
                proof {
                    assert(false);
                }
                vstd::pervasive::unreached()
            },
        };
        let mut x2 = x;
        let ghost n = x2@.len();
        proof {
            assert(x2@.subrange(0, n as int) =~= from.x@);
        }
        let mut i: usize = 0;
        while i < m
            invariant
                x2@.len() == n + i,
                i <= m,
                x2@.subrange(0, n as int) == from.x@,
                forall|k: int|
                    0 <= k < i ==> #[trigger] x2@[n + k] == (Variable::Slack { id: (k + 1) as usize }),
                n + m <= usize::MAX,
            decreases m - i,
        {
            x2.push(new_slack(i));
            proof {
                assert(x2@.subrange(0, n as int) =~= from.x@);
            }
            i += 1;
        }
        let r = Condition { a: a2, x: x2, sign: Sign::EQ, b };
        proof {
            assert forall|k: int| 0 <= k < n + m implies r.x@[k] == (from.x@ + slack_seq(
                m as nat,
            ))[k] by {
                if k < n {
                    assert(r.x@.subrange(0, n as int)[k] == r.x@[k]);
                } else {
                    assert(r.x@[n + (k - n)] == (Variable::Slack { id: (k - n + 1) as usize }));
                }
            }
            assert(r.x@ =~= from.x@ + slack_seq(m as nat));
            assert forall|i2: int| 0 <= i2 < m implies (#[trigger] r.a.rows@[i2])@
                == from.a.rows@[i2]@ + ident_row(m as nat, i2) by {
                assert(r.a.rows@[i2]@ == from.a.rows@[i2]@ + ident.rows@[i2]@);
                assert(ident.rows@[i2]@ =~= ident_row(m as nat, i2)) by {
                    assert forall|j: int| 0 <= j < m implies ident.rows@[i2]@[j]
                        == ident_row(m as nat, i2)[j] by {
                        assert(ident.entry(i2, j) == ident.rows@[i2]@[j]);
                    }
                }
            }
            assert(is_standardized_condition(from, r));
            // The result is well-formed: entries stay well-formed and the
            // appended slacks collide neither with the decision variables
            // nor with each other.
            assert forall|i2: int, j: int|
                0 <= i2 < r.a.column_size && 0 <= j < r.a.row_size
                implies (#[trigger] r.a.entry(i2, j)).wf() by {
                assert(r.a.rows@[i2]@ == from.a.rows@[i2]@ + ident_row(m as nat, i2));
                if j < from.a.row_size {
                    assert(r.a.entry(i2, j) == from.a.entry(i2, j));
                } else {
                    assert(r.a.entry(i2, j) == ident_row(m as nat, i2)[j - from.a.row_size]);
                }
            }
            assert forall|k: int, l: int| #![trigger r.x@[k], r.x@[l]]
                0 <= k < l < r.x@.len() implies r.x@[k] != r.x@[l] by {
                if l < n {
                    assert(from.x@[k] != from.x@[l]);
                } else if k < n {
                    assert(r.x@[k] is Normal && r.x@[l] is Slack);
                }
            }
        }
        r
    }
}

/// The variable columns of the standardized problem: the original list,
/// with the slack variables appended when standardization adds them.
pub open spec fn std_vars(p: Problem) -> Seq<Variable> {
    if p.condition.sign is LE {
        p.condition.x@ + slack_seq(p.condition.b@.len())
    } else {
        p.condition.x@
    }
}

/// One objective term with its coefficient exactly negated and reduced.
pub open spec fn negated_term(t: Term) -> Term {
    Term { coefficient: ratio_of(canon_of(rat_neg(t.coefficient.rat()))), variable: t.variable }
}

/// The negated objective, term for term.
pub open spec fn negated_terms(from: Seq<Term>) -> Seq<Term> {
    Seq::new(from.len(), |i: int| negated_term(from[i]))
}

/// The term list of the standardized objective: the original one when the
/// problem maximizes, the negated one when it minimizes.
pub open spec fn std_objective_terms(p: Problem) -> Seq<Term> {
    if p.direction is Max {
        p.objective_function.terms@
    } else {
        negated_terms(p.objective_function.terms@)
    }
}

/// How a standardized objective relates to the one it came from when the
/// direction was `Min`: term for term, the same variable with the
/// coefficient exactly negated (and reduced).
pub open spec fn is_negated_objective(from: Seq<Term>, to: Seq<Term>) -> bool {
    &&& to.len() == from.len()
    &&& forall|i: int|
        0 <= i < from.len() ==> (#[trigger] to[i]).variable == from[i].variable
            && to[i].coefficient.wf()
            && to[i].coefficient.rat() == canon_of(rat_neg(from[i].coefficient.rat()))
            && rat_eq(to[i].coefficient.rat(), rat_neg(from[i].coefficient.rat()))
}

/// A term list standing in [`is_negated_objective`] relation to `from` is
/// exactly [`negated_terms`]`(from)`: the relation pins each stored
/// coefficient down to its representation.
pub proof fn lemma_negated_objective_terms(from: Seq<Term>, to: Seq<Term>)
    requires
        is_negated_objective(from, to),
    ensures
        to == negated_terms(from),
{
    assert forall|i: int| 0 <= i < to.len() implies to[i] == negated_terms(from)[i] by {
        let c = (#[trigger] to[i]).coefficient;
        let target = canon_of(rat_neg(from[i].coefficient.rat()));
        assert(c.rat() == target);
        assert(c.num == target.n as i64 && c.den == target.d as i64);
    }
    assert(to =~= negated_terms(from));
}

/// The summed coefficient of a negated objective is the negated summed
/// coefficient of the original, for every variable.
pub proof fn lemma_coeff_sum_negated(from: Seq<Term>, to: Seq<Term>, v: Variable)
    requires
        is_negated_objective(from, to),
        forall|i: int| 0 <= i < from.len() ==> (#[trigger] from[i]).coefficient.wf(),
    ensures
        rat_eq(coeff_sum(to, v), rat_neg(coeff_sum(from, v))),
    decreases from.len(),
{
    if from.len() == 0 {
    } else {
        let f1 = from.drop_last();
        let t1 = to.drop_last();
        assert(is_negated_objective(f1, t1));
        lemma_coeff_sum_negated(f1, t1, v);
        lemma_coeff_sum_wf(f1, v);
        lemma_coeff_sum_wf(t1, v);
        let sf = coeff_sum(f1, v);
        let st = coeff_sum(t1, v);
        if from.last().variable == v {
            let cf = from.last().coefficient.rat();
            let ct = to.last().coefficient.rat();
            // coeff_sum(to, v) == st + ct  ~  -sf + ct  ~  -sf + -cf
            // and -(sf + cf) == -sf + -cf as specification values.
            lemma_rat_ops_wf(sf, cf);
            lemma_rat_ops_wf(rat_neg(sf), cf);
            lemma_rat_add_congruence_left(st, rat_neg(sf), ct);
            lemma_rat_add_congruence(rat_neg(sf), ct, rat_neg(cf));
            lemma_rat_ops_wf(st, ct);
            lemma_rat_ops_wf(rat_neg(sf), ct);
            lemma_rat_ops_wf(rat_neg(sf), rat_neg(cf));
            lemma_rat_eq_trans(
                rat_add(st, ct),
                rat_add(rat_neg(sf), ct),
                rat_add(rat_neg(sf), rat_neg(cf)),
            );
            assert((-sf.n) * cf.d + (-cf.n) * sf.d == -(sf.n * cf.d + cf.n * sf.d)) by (nonlinear_arith);
            assert(rat_add(rat_neg(sf), rat_neg(cf)) == rat_neg(rat_add(sf, cf)));
        }
    }
}

impl Problem {
    /// Validity: well-formed parts, and a `<=` batch ranges over decision
    /// variables only.
    pub open spec fn wf(self) -> bool {
        &&& self.objective_function.wf()
        &&& self.condition.wf()
        &&& (self.condition.sign is LE ==> vars_all_normal(self.condition.x@))
    }

    /// Build a maximization problem.
    pub fn maximize(objective_function: Polynomial, condition: Condition) -> (r: Self)
        ensures
            r == (Problem { direction: Direction::Max, objective_function, condition }),
    {
        Self { direction: Direction::Max, objective_function, condition }
    }

    /// Build a minimization problem.
    pub fn minimize(objective_function: Polynomial, condition: Condition) -> (r: Self)
        ensures
            r == (Problem { direction: Direction::Min, objective_function, condition }),
    {
        Self { direction: Direction::Min, objective_function, condition }
    }

    /// Whether the problem is already in standard form: maximizing, with
    /// equality constraints only.
    pub fn is_standard_form(&self) -> (r: bool)
        ensures
            r == (self.direction is Max && self.condition.sign is EQ),
    {
        matches!(self.direction, Direction::Max) && matches!(self.condition.sign, Sign::EQ)
    }

    /// Standardize the whole problem: a `Min` objective is negated so the
    /// result maximizes, and the condition batch is standardized.
    ///
    /// Standardization is idempotent: a problem already in standard form
    /// comes back unchanged (the first clause below), and every `Ok`
    /// result is in standard form.  The only failure is an exact negated
    /// coefficient that does not fit the scalar representation.
    pub fn into_standard_form(self) -> (r: Result<Problem, Error>)
        requires
            self.wf(),
            self.condition.x@.len() + self.condition.b@.len() <= usize::MAX,
        ensures
            self.direction is Max && self.condition.sign is EQ ==> r == Ok::<Problem, Error>(self),
            match r {
                Ok(p) => {
                    &&& p.wf()
                    &&& p.direction is Max
                    &&& p.condition.sign is EQ
                    &&& is_standardized_condition(self.condition, p.condition)
                    &&& (self.direction is Max ==> p.objective_function == self.objective_function)
                    &&& (self.direction is Min ==> is_negated_objective(
                        self.objective_function.terms@,
                        p.objective_function.terms@,
                    ))
                },
                Err(e) => {
                    &&& e == Error::Overflow
                    &&& self.direction is Min
                    &&& exists|i: int|
                        0 <= i < self.objective_function.terms@.len()
                            && !rat_fits(canon_of(rat_neg(
                                (#[trigger] self.objective_function.terms@[i]).coefficient.rat(),
                            )))
                },
            },
            (self.direction is Max || forall|i: int|
                0 <= i < self.objective_function.terms@.len()
                    ==> rat_fits(canon_of(rat_neg(
                        (#[trigger] self.objective_function.terms@[i]).coefficient.rat(),
                    )))) ==> r is Ok,
    {
        if self.is_standard_form() {
            return Ok(self);
        }
        let ghost orig = self;
        let Problem { direction, objective_function, condition } = self;
        let objective_function = if matches!(direction, Direction::Min) {
            let mut terms: Vec<Term> = Vec::new();
            let mut i: usize = 0;
            while i < objective_function.terms.len()
                invariant
                    orig == self,
                    orig.direction is Min,
                    objective_function == orig.objective_function,
                    objective_function.wf(),
                    i <= objective_function.terms@.len(),
                    terms@.len() == i,
                    forall|k: int|
                        0 <= k < i ==> (#[trigger] terms@[k]).variable
                            == objective_function.terms@[k].variable
                            && terms@[k].coefficient.wf()
                            && terms@[k].coefficient.rat()
                                == canon_of(rat_neg(objective_function.terms@[k].coefficient.rat()))
                            && rat_eq(
                            terms@[k].coefficient.rat(),
                            rat_neg(objective_function.terms@[k].coefficient.rat()),
                        ),
                decreases objective_function.terms@.len() - i,
            {
                let t = objective_function.terms[i];
                match t.coefficient.neg() {
                    Some(c) => {
                        terms.push(Term { coefficient: c, variable: t.variable });
                    },
                    None => {
                        return Err(Error::Overflow);
                    },
                }
                i += 1;
            }
            Polynomial { terms }
        } else {
            objective_function
        };
        let condition = condition.into_standard_form();
        Ok(Problem { direction: Direction::Max, objective_function, condition })
    }
}

} // verus!
