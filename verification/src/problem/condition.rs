//! Single conditions over linear expressions.
//!
//! This is the one-at-a-time face of the constraint model: a [`Condition`]
//! is either an equation or an inequality between an [`Expression`] and a
//! scalar bound, and [`Condition::into_standarized`] turns one condition
//! into an equation by introducing a slack (for `<=`) or surplus (for
//! `>=`) variable derived from the condition's position.

use vstd::prelude::*;

verus! {

use crate::components::ratio::Ratio;
use crate::components::variable::{new_slack, Variable};
use crate::expression::Expression;

/// The direction of an inequality.
#[derive(Clone, Copy, Debug, PartialEq, Eq, Structural)]
pub enum Sign {
    GE,
    LE,
}

/// `left == right`.
#[derive(Clone, Debug, PartialEq, Eq)]
pub struct Equation {
    pub left: Expression,
    pub right: Ratio,
}

/// `left (sign) right`.
#[derive(Clone, Debug, PartialEq, Eq)]
pub struct Inequality {
    pub left: Expression,
    pub sign: Sign,
    pub right: Ratio,
}

/// One linear condition.
#[derive(Clone, Debug, PartialEq, Eq)]
pub enum Condition {
    Equation(Equation),
    Inequality(Inequality),
}

impl Condition {
    /// Standardize one condition.  An equation passes through unchanged
    /// and introduces no variable.  A `<=` inequality gains exactly one
    /// appended slack term with coefficient one and becomes an equation; a
    /// `>=` inequality has a surplus variable subtracted (coefficient
    /// minus one) and becomes an equation as well.  The fresh variable is
    /// derived from `position`, the condition's index in its problem, and
    /// is returned so the caller can record its non-negativity.
    pub fn into_standarized(self, position: usize) -> (r: (Condition, Option<Variable>))
        requires
            position < usize::MAX,
        ensures
            ({
                let slack = Variable::Slack { id: (position + 1) as usize };
                match self {
                    Condition::Equation(e) => r.0 == Condition::Equation(e) && r.1 is None,
                    Condition::Inequality(ineq) => {
                        let coeff = if ineq.sign is LE {
                            Ratio { num: 1, den: 1 }
                        } else {
                            Ratio { num: -1i64, den: 1 }
                        };
                        &&& r.1 == Some(slack)
                        &&& r.0 matches Condition::Equation(e2)
                            && e2.left.terms@ == ineq.left.terms@.push((coeff, slack))
                            && e2.right == ineq.right
                    },
                }
            }),
    {
        match self {
            Condition::Equation(e) => (Condition::Equation(e), None),
            Condition::Inequality(Inequality { left, sign, right }) => {
                let slack = new_slack(position);
                let coeff = if matches!(sign, Sign::LE) {
                    Ratio::from_int(1)
                } else {
                    Ratio::from_int(-1)
                };
                let mut terms = left.terms;
                terms.push((coeff, slack));
                (
                    Condition::Equation(Equation { left: Expression { terms }, right }),
                    Some(slack),
                )
            },
        }
    }

    /// The left-hand expression of the condition.
    pub fn left(&self) -> (r: &Expression)
        ensures
            *r == (match *self {
                Condition::Equation(e) => e.left,
                Condition::Inequality(i) => i.left,
            }),
    {
        match self {
            Condition::Equation(e) => &e.left,
            Condition::Inequality(i) => &i.left,
        }
    }

    /// The right-hand bound of the condition.
    pub fn right(&self) -> (r: &Ratio)
        ensures
            *r == (match *self {
                Condition::Equation(e) => e.right,
                Condition::Inequality(i) => i.right,
            }),
    {
        match self {
            Condition::Equation(e) => &e.right,
            Condition::Inequality(i) => &i.right,
        }
    }
}

/// An equation `left == right` over the given (coefficient, variable) pairs.
pub fn equation(left: Vec<(Ratio, Variable)>, right: Ratio) -> (r: Equation)
    ensures
        r.left.terms@ == left@,
        r.right == right,
{
    Equation { left: Expression::from_iter(left), right }
}

/// An inequality `left (sign) right` over the given pairs.
pub fn inequality(left: Vec<(Ratio, Variable)>, sign: Sign, right: Ratio) -> (r: Inequality)
    ensures
        r.left.terms@ == left@,
        r.sign == sign,
        r.right == right,
{
    Inequality { left: Expression::from_iter(left), sign, right }
}

} // verus!
