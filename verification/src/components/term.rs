//! A single linear term: a scalar coefficient times a variable.

use vstd::prelude::*;

verus! {

use crate::components::ratio::Ratio;
use crate::components::variable::Variable;

#[derive(Clone, Copy, Debug, PartialEq, Eq, Structural)]
pub struct Term {
    pub coefficient: Ratio,
    pub variable: Variable,
}

} // verus!
