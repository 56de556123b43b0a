//! A verified bridge from linear problems with floating-point coefficients to the CP-SAT solver.
//!
//! [`cp_sat`] converts a problem to an integer model, exactly or not at all. Constraints and hints
//! are converted as they are added. [`CpSatProblem::solve`] hands the model to a solver and says
//! what its response means.
//!
//! Floating-point numbers are handled by their bit patterns; see [`float`].
pub mod arithmetic;
pub mod bridge;
pub mod convert;
pub mod error;
pub mod float;
pub mod format;
pub mod laws;
pub mod model;
pub mod problem;
pub mod solver;
pub mod status;

pub use bridge::{cp_sat, CpSatProblem, CpSatSolution};
pub use error::{Message, MipGapError, ResolutionError};
pub use float::{Float32, Float64};
pub use problem::{
    Constraint, ConstraintReference, Expression, LinearExpression, ObjectiveDirection,
    UnsolvedProblem, Variable, VariableDefinition,
};
pub use status::SolutionStatus;
