//! The data types the solver is built from: exact rational scalars, the
//! dense matrix, variables, and linear terms / polynomials.

pub mod matrix;
pub mod polynomial;
pub mod ratio;
pub mod term;
pub mod variable;
