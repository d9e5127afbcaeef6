//! Linear expressions: ordered lists of (coefficient, variable) pairs.
//!
//! Duplicates are not merged here either; each pair is kept distinct in
//! the order given.

pub use crate::components::variable::{new_slack, var, Variable};

use vstd::prelude::*;

verus! {

use crate::components::ratio::Ratio;

#[derive(Clone, Debug, PartialEq, Eq)]
pub struct Expression {
    pub terms: Vec<(Ratio, Variable)>,
}

impl Expression {
    /// Keep the given pairs, in order, as a linear expression.
    pub fn from_iter(terms: Vec<(Ratio, Variable)>) -> (r: Self)
        ensures
            r.terms@ == terms@,
    {
        Self { terms }
    }

    /// All coefficients are well-formed rationals.
    pub open spec fn wf(self) -> bool {
        forall|i: int| 0 <= i < self.terms@.len() ==> (#[trigger] self.terms@[i]).0.wf()
    }
}

} // verus!
