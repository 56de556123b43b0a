//! Linear problems as a caller states them, with floating-point coefficients and bounds.
use vstd::prelude::*;
use crate::float::Float64;

verus! {

/// A variable of a problem, by its position among the variables.
#[derive(Clone, Copy, Debug, PartialEq, Eq, Hash, Structural)]
pub struct Variable {
    pub index: usize,
}

/// The declaration of a variable.
#[derive(Debug, PartialEq, Eq)]
pub struct VariableDefinition {
    /// Whether the variable takes integer values only.
    pub is_integer: bool,
    /// The lower bound.
    pub min: Float64,
    /// The upper bound.
    pub max: Float64,
    /// The name; empty for an anonymous variable.
    pub name: String,
    /// A value to start the search from.
    pub initial: Option<Float64>,
}

/// A sum of variables, each with its coefficient, in the order in which the terms are taken.
#[derive(Debug, PartialEq, Eq)]
pub struct LinearExpression {
    pub coefficients: Vec<(Variable, Float64)>,
}

/// A linear expression with a constant term.
#[derive(Debug, PartialEq, Eq)]
pub struct Expression {
    pub linear: LinearExpression,
    pub constant: Float64,
}

/// The requirement that an expression is zero, or that it is at most zero.
#[derive(Debug, PartialEq, Eq)]
pub struct Constraint {
    pub expression: Expression,
    pub is_equality: bool,
}

/// The position of a constraint among those added to a problem.
#[derive(Clone, Copy, Debug, PartialEq, Eq, Hash, Structural)]
pub struct ConstraintReference {
    pub index: usize,
}

/// Whether an objective is to be made large or small.
#[derive(Clone, Copy, Debug, PartialEq, Eq, Structural)]
pub enum ObjectiveDirection {
    Maximisation,
    Minimisation,
}

impl ObjectiveDirection {
    /// Whether a value of the objective is at least as good as another.
    pub open spec fn at_least_as_good(self, value: int, other: int) -> bool {
        match self {
            ObjectiveDirection::Maximisation => value >= other,
            ObjectiveDirection::Minimisation => value <= other,
        }
    }
}

/// A problem that no solver has been chosen for yet.
#[derive(Debug, PartialEq, Eq)]
pub struct UnsolvedProblem {
    pub objective: Expression,
    pub direction: ObjectiveDirection,
    pub variables: Vec<VariableDefinition>,
}

/// The value, in units, of a sum of terms under an integer assignment.
pub open spec fn scaled_sum(terms: Seq<(Variable, Float64)>, assignment: Seq<int>) -> int
    decreases terms.len(),
{
    if terms.len() == 0 {
        0
    } else {
        scaled_sum(terms.drop_last(), assignment) + terms.last().1.scaled()
            * assignment[terms.last().0.index as int]
    }
}

impl Expression {
    /// The exact value, in units, of the expression under an integer assignment.
    pub open spec fn scaled_value(self, assignment: Seq<int>) -> int {
        scaled_sum(self.linear.coefficients@, assignment) + self.constant.scaled()
    }
}

impl Constraint {
    /// Whether an integer assignment satisfies the constraint.
    pub open spec fn holds(self, assignment: Seq<int>) -> bool {
        if self.is_equality {
            self.expression.scaled_value(assignment) == 0
        } else {
            self.expression.scaled_value(assignment) <= 0
        }
    }
}

impl VariableDefinition {
    /// Whether an integer lies within the bounds.
    pub open spec fn admits(self, value: int) -> bool {
        self.min.scaled() <= value * Float64::one() <= self.max.scaled()
    }
}

} // verus!
