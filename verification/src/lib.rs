//! A verified tableau-simplex solver for linear programming problems.
//!
//! A problem asks to maximize (or minimize) a linear objective subject to
//! linear `<=` / `=` constraints with all variables non-negative:
//!
//! ```text
//!     maximize  c x
//!     s.t.      A x <= b,   x_i >= 0 for every i
//! ```
//!
//! The pipeline is: a [`Problem`] is brought into standard form (maximizing,
//! equality constraints only, one slack variable per `<=` row), a tableau
//! ([`table::Table`]) is built from it, and pivots are applied until every
//! reduced cost is non-negative or a failure is detected.
//!
//! Scalars are exact rationals ([`Ratio`]), so every arithmetic step of the
//! pivot engine carries a proved relation to the mathematical rational it
//! denotes; operations whose canonical result does not fit the fixed-width
//! representation report [`Error::Overflow`] instead of returning a wrong
//! value.

pub mod components;
pub mod expression;
pub mod problem;
pub mod table;

pub use components::matrix::Matrix;
pub use components::ratio::Ratio;
pub use components::variable::var;
pub use components::variable::Variable;
pub use problem::Condition;
pub use problem::Problem;
pub use table::Solution;

use vstd::prelude::*;

verus! {

use crate::components::ratio::{canon_of, rat_eq, rat_fits, rat_neg};
use crate::problem::{std_vars, vars_all_normal, Direction};
use crate::table::{
    assigned_value, gj_overflows, is_initial_table, iteration_limit,
    lemma_normals_of_all_normal, lemma_normals_of_with_slacks, normals_of,
    objective_row_overflows, reaches, std_negation_overflows, table_shape_mismatch, Pivot, Table,
};

impl Problem {
    /// Solve the problem end to end: standardize it, build the tableau,
    /// and pivot to optimality.
    ///
    /// On success the solution reads off an optimal tableau reached from
    /// the problem's initial tableau by selected-pivot steps: every
    /// decision variable of the condition, in order — the basic ones with
    /// their basic value, every non-basic one exactly zero — and the
    /// optimal objective value, reported in the problem's own direction:
    /// for a `Min` problem the internally maximized negated objective is
    /// negated back.  Each failure carries its evidence: an unbounded or
    /// exhausted reached state, a shape mismatch of an equality-form
    /// problem, or a named exact quantity that does not fit.
    pub fn solve(self) -> (r: Result<Solution, Error>)
        requires
            self.wf(),
            self.condition.x@.len() + self.condition.b@.len() <= usize::MAX,
        ensures
            match r {
                Ok(s) => {
                    &&& exists|t0: Table, t1: Table, k: nat|
                        {
                            &&& #[trigger] reaches(t0, t1, k)
                            &&& is_initial_table(self, t0)
                            &&& k <= iteration_limit(t0)
                            &&& t1.wf()
                            &&& t1.variables@ == std_vars(self)
                            &&& t1.optimal()
                            &&& s.variables@.len() == normals_of(std_vars(self)).len()
                            &&& (forall|k2: int|
                                0 <= k2 < s.variables@.len() ==> (#[trigger] s.variables@[k2]).0
                                    == normals_of(std_vars(self))[k2] && s.variables@[k2].1
                                    == assigned_value(t1, s.variables@[k2].0))
                            &&& (self.direction is Max ==> s.optimal_value == t1.bases@.last().value)
                            &&& (self.direction is Min ==> s.optimal_value.rat() == canon_of(
                                rat_neg(t1.bases@.last().value.rat()),
                            ) && rat_eq(
                                s.optimal_value.rat(),
                                rat_neg(t1.bases@.last().value.rat()),
                            ))
                        }
                    &&& s.variables@.len() == normals_of(self.condition.x@).len()
                    &&& forall|k: int|
                        0 <= k < s.variables@.len() ==> (#[trigger] s.variables@[k]).0
                            == normals_of(self.condition.x@)[k] && s.variables@[k].1.wf()
                    &&& (vars_all_normal(self.condition.x@) ==> s.variables@.len()
                        == self.condition.x@.len() && (forall|k: int|
                        0 <= k < s.variables@.len() ==> (#[trigger] s.variables@[k]).0
                            == self.condition.x@[k]))
                    &&& s.optimal_value.wf()
                },
                Err(e) => {
                    &&& {
                        ||| e == Error::Unbounded
                        ||| e == Error::IterationLimitExceeded
                        ||| e == Error::Overflow
                        ||| (e == Error::ShapeError && self.condition.sign is EQ
                            && table_shape_mismatch(self))
                    }
                    &&& (e == Error::Unbounded ==> exists|t0: Table, t1: Table, k: nat|
                        {
                            &&& #[trigger] reaches(t0, t1, k)
                            &&& is_initial_table(self, t0)
                            &&& t1.wf()
                            &&& !t1.optimal()
                            &&& exists|c: int|
                                #[trigger] t1.is_entering_column(c) && (forall|i: int|
                                    !(#[trigger] t1.eligible(c, i)))
                        })
                    &&& (e == Error::IterationLimitExceeded ==> exists|t0: Table, t1: Table|
                        #[trigger] reaches(t0, t1, iteration_limit(t0) as nat)
                            && is_initial_table(self, t0) && t1.wf() && !t1.optimal())
                    &&& (e == Error::Overflow ==> {
                        ||| std_negation_overflows(self)
                        ||| exists|j: int|
                            0 <= j < std_vars(self).len() && objective_row_overflows(
                                self,
                                #[trigger] std_vars(self)[j],
                            )
                        ||| exists|t0: Table, t1: Table, k: nat|
                            {
                                &&& #[trigger] reaches(t0, t1, k)
                                &&& is_initial_table(self, t0)
                                &&& t1.wf()
                                &&& {
                                    ||| (!t1.optimal() && (t1.pivot_search_overflows()
                                        || exists|p: Pivot|
                                            #[trigger] t1.is_selected_pivot(p) && gj_overflows(
                                                t1,
                                                p.row as int,
                                                p.column as int,
                                            )))
                                    ||| (self.direction is Min && t1.optimal() && !rat_fits(
                                        canon_of(rat_neg(t1.bases@.last().value.rat())),
                                    ))
                                }
                            }
                    })
                },
            },
    {
        let ghost p0 = self;
        let direction = self.direction;
        let t = match Table::from_problem(self) {
            Ok(t) => t,
            Err(e) => {
                return Err(e);
            },
        };
        proof {
            if p0.condition.sign is LE {
                lemma_normals_of_with_slacks(p0.condition.x@, p0.condition.b@.len());
            }
            if vars_all_normal(p0.condition.x@) {
                lemma_normals_of_all_normal(p0.condition.x@);
            }
        }
        let sol = match t.solve() {
            Ok(s) => s,
            Err(e) => {
                return Err(e);
            },
        };
        if matches!(direction, Direction::Min) {
            let unneg = match sol.optimal_value.neg() {
                Some(v) => v,
                None => {
                    return Err(Error::Overflow);
                },
            };
            Ok(Solution { variables: sol.variables, optimal_value: unneg })
        } else {
            Ok(sol)
        }
    }
}

/// Everything that can go wrong while building or solving a problem.
#[derive(Clone, Copy, Debug, PartialEq, Eq, Structural)]
pub enum Error {
    /// Malformed input: empty or ragged matrix rows, dimension mismatch,
    /// duplicate or non-decision variables in a constraint block.
    ShapeError,
    /// The feasible region is unbounded in the objective direction: some
    /// improving column has no positive coefficient to pivot on.
    Unbounded,
    /// The pivot loop did not reach optimality within the iteration bound.
    IterationLimitExceeded,
    /// An exact rational result does not fit the fixed-width representation.
    Overflow,
}

} // verus!
