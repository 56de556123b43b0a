//! Constraint models over the integers, as the CP-SAT solver takes them.
use vstd::prelude::*;
use crate::problem::ObjectiveDirection;

verus! {

/// An integer variable of a model, by its position among the variables.
#[derive(Clone, Copy, Debug, PartialEq, Eq, Hash, Structural)]
pub struct IntVar {
    pub index: usize,
}

/// The declaration of an integer variable: its name, which may be empty, and its domain.
#[derive(Debug, PartialEq, Eq)]
pub struct IntegerVariable {
    pub name: String,
    pub lower: i64,
    pub upper: i64,
}

/// What a declaration says.
#[verifier::ext_equal]
pub struct IntegerVariableView {
    pub name: Seq<char>,
    pub lower: i64,
    pub upper: i64,
}

impl View for IntegerVariable {
    type V = IntegerVariableView;

    open spec fn view(&self) -> IntegerVariableView {
        IntegerVariableView { name: self.name@, lower: self.lower, upper: self.upper }
    }
}

/// A sum of integer multiples of variables, and a constant.
#[derive(Debug, PartialEq, Eq)]
pub struct LinearExpr {
    pub terms: Vec<(i64, IntVar)>,
    pub constant: i64,
}

/// What a linear expression says.
#[verifier::ext_equal]
pub struct LinearExprView {
    pub terms: Seq<(i64, IntVar)>,
    pub constant: i64,
}

impl View for LinearExpr {
    type V = LinearExprView;

    open spec fn view(&self) -> LinearExprView {
        LinearExprView { terms: self.terms@, constant: self.constant }
    }
}

/// The value of a sum of terms under an assignment.
pub open spec fn sum(terms: Seq<(i64, IntVar)>, assignment: Seq<int>) -> int
    decreases terms.len(),
{
    if terms.len() == 0 {
        0
    } else {
        sum(terms.drop_last(), assignment) + terms.last().0
            * assignment[terms.last().1.index as int]
    }
}

impl LinearExprView {
    /// Whether the expression names only the first `count` variables.
    pub open spec fn names_below(self, count: nat) -> bool {
        forall|i: int| 0 <= i < self.terms.len() ==> (#[trigger] self.terms[i]).1.index < count
    }

    /// The value of the expression under an assignment.
    pub open spec fn value(self, assignment: Seq<int>) -> int {
        sum(self.terms, assignment) + self.constant
    }
}

impl LinearExpr {
    /// The empty sum.
    pub fn new() -> (expr: LinearExpr)
        ensures
            expr@ == (LinearExprView { terms: Seq::empty(), constant: 0 }),
    {
        LinearExpr { terms: Vec::new(), constant: 0 }
    }

    /// Adds a multiple of a variable.
    pub fn add_term(&mut self, coefficient: i64, var: IntVar)
        ensures
            final(self)@ == (LinearExprView {
                terms: old(self)@.terms.push((coefficient, var)),
                constant: old(self)@.constant,
            }),
    {
        self.terms.push((coefficient, var));
    }
}

/// How a linear expression is compared with a bound.
#[derive(Clone, Copy, Debug, PartialEq, Eq, Structural)]
pub enum Relation {
    Equal,
    AtMost,
}

/// The requirement that a linear expression equals a bound, or is at most that bound.
#[derive(Debug, PartialEq, Eq)]
pub struct LinearConstraint {
    pub expr: LinearExpr,
    pub relation: Relation,
    pub bound: i64,
}

/// What a linear constraint says.
#[verifier::ext_equal]
pub struct LinearConstraintView {
    pub expr: LinearExprView,
    pub relation: Relation,
    pub bound: i64,
}

impl View for LinearConstraint {
    type V = LinearConstraintView;

    open spec fn view(&self) -> LinearConstraintView {
        LinearConstraintView { expr: self.expr@, relation: self.relation, bound: self.bound }
    }
}

impl LinearConstraintView {
    /// Whether an assignment satisfies the constraint.
    pub open spec fn holds(self, assignment: Seq<int>) -> bool {
        match self.relation {
            Relation::Equal => self.expr.value(assignment) == self.bound,
            Relation::AtMost => self.expr.value(assignment) <= self.bound,
        }
    }
}

/// The expression to optimise.
#[derive(Debug, PartialEq, Eq)]
pub struct Objective {
    pub direction: ObjectiveDirection,
    pub expr: LinearExpr,
}

/// What an objective says.
#[verifier::ext_equal]
pub struct ObjectiveView {
    pub direction: ObjectiveDirection,
    pub expr: LinearExprView,
}

impl View for Objective {
    type V = ObjectiveView;

    open spec fn view(&self) -> ObjectiveView {
        ObjectiveView { direction: self.direction, expr: self.expr@ }
    }
}

/// A model under construction.
#[derive(Debug, PartialEq, Eq)]
pub struct CpModelBuilder {
    pub variables: Vec<IntegerVariable>,
    pub objective: Option<Objective>,
    pub constraints: Vec<LinearConstraint>,
    /// Values to start the search from.
    pub hints: Vec<(IntVar, i64)>,
}

/// What a model says.
#[verifier::ext_equal]
pub struct ModelView {
    pub variables: Seq<IntegerVariableView>,
    pub objective: Option<ObjectiveView>,
    pub constraints: Seq<LinearConstraintView>,
    pub hints: Seq<(IntVar, i64)>,
}

impl View for CpModelBuilder {
    type V = ModelView;

    open spec fn view(&self) -> ModelView {
        ModelView {
            variables: self.variables@.map_values(|v: IntegerVariable| v@),
            objective: match self.objective {
                Some(objective) => Some(objective@),
                None => None,
            },
            constraints: self.constraints@.map_values(|c: LinearConstraint| c@),
            hints: self.hints@,
        }
    }
}

impl ModelView {
    /// The model without anything in it.
    pub open spec fn empty() -> ModelView {
        ModelView {
            variables: Seq::empty(),
            objective: None,
            constraints: Seq::empty(),
            hints: Seq::empty(),
        }
    }

    /// Whether domains are not empty and nothing names a variable that is not declared.
    pub open spec fn wf(self) -> bool {
        let count = self.variables.len();
        &&& forall|i: int|
            0 <= i < count ==> (#[trigger] self.variables[i]).lower <= self.variables[i].upper
        &&& self.objective matches Some(objective) ==> objective.expr.names_below(count)
        &&& forall|i: int|
            0 <= i < self.constraints.len() ==> (#[trigger] self.constraints[i]).expr.names_below(
                count,
            )
        &&& forall|i: int|
            0 <= i < self.hints.len() ==> (#[trigger] self.hints[i]).0.index < count
    }

    /// Whether an assignment gives each variable a value of its domain and satisfies all the
    /// constraints.
    pub open spec fn feasible(self, assignment: Seq<int>) -> bool {
        &&& assignment.len() == self.variables.len()
        &&& forall|i: int|
            0 <= i < self.variables.len() ==> (#[trigger] self.variables[i]).lower <= assignment[i]
                <= self.variables[i].upper
        &&& forall|i: int|
            0 <= i < self.constraints.len() ==> (#[trigger] self.constraints[i]).holds(assignment)
    }

    /// Whether an assignment is feasible and no other feasible one is better.
    pub open spec fn optimal(self, assignment: Seq<int>) -> bool {
        &&& self.feasible(assignment)
        &&& self.objective matches Some(objective) ==> forall|other: Seq<int>| #[trigger]
            self.feasible(other) ==> objective.direction.at_least_as_good(
                objective.expr.value(assignment),
                objective.expr.value(other),
            )
    }
}

impl CpModelBuilder {
    /// The model without anything in it.
    pub fn new() -> (model: CpModelBuilder)
        ensures
            model@ == ModelView::empty(),
    {
        let model = CpModelBuilder {
            variables: Vec::new(),
            objective: None,
            constraints: Vec::new(),
            hints: Vec::new(),
        };
        assert(model@ =~= ModelView::empty());
        model
    }

    /// Declares an integer variable.
    pub fn new_int_var(&mut self, lower: i64, upper: i64, name: &str) -> (var: IntVar)
        ensures
            var.index == old(self)@.variables.len(),
            final(self)@ == (ModelView {
                variables: old(self)@.variables.push(
                    IntegerVariableView { name: name@, lower, upper },
                ),
                ..old(self)@
            }),
    {
        let index: usize = self.variables.len();
        self.variables.push(IntegerVariable { name: name.to_owned(), lower, upper });
        assert(self@.variables =~= old(self)@.variables.push(
            IntegerVariableView { name: name@, lower, upper },
        ));
        IntVar { index }
    }

    /// Asks for the greatest value of an expression.
    pub fn maximize(&mut self, expr: LinearExpr)
        ensures
            final(self)@ == (ModelView {
                objective: Some(
                    ObjectiveView { direction: ObjectiveDirection::Maximisation, expr: expr@ },
                ),
                ..old(self)@
            }),
    {
        self.objective = Some(Objective { direction: ObjectiveDirection::Maximisation, expr });
    }

    /// Asks for the least value of an expression.
    pub fn minimize(&mut self, expr: LinearExpr)
        ensures
            final(self)@ == (ModelView {
                objective: Some(
                    ObjectiveView { direction: ObjectiveDirection::Minimisation, expr: expr@ },
                ),
                ..old(self)@
            }),
    {
        self.objective = Some(Objective { direction: ObjectiveDirection::Minimisation, expr });
    }

    /// Requires that an expression equals a bound.
    pub fn add_eq(&mut self, expr: LinearExpr, bound: i64)
        ensures
            final(self)@ == (ModelView {
                constraints: old(self)@.constraints.push(
                    LinearConstraintView { expr: expr@, relation: Relation::Equal, bound },
                ),
                ..old(self)@
            }),
    {
        let constraint = LinearConstraint { expr, relation: Relation::Equal, bound };
        self.constraints.push(constraint);
        assert(self@.constraints =~= old(self)@.constraints.push(constraint@));
    }

    /// Requires that an expression is at most a bound.
    pub fn add_le(&mut self, expr: LinearExpr, bound: i64)
        ensures
            final(self)@ == (ModelView {
                constraints: old(self)@.constraints.push(
                    LinearConstraintView { expr: expr@, relation: Relation::AtMost, bound },
                ),
                ..old(self)@
            }),
    {
        let constraint = LinearConstraint { expr, relation: Relation::AtMost, bound };
        self.constraints.push(constraint);
        assert(self@.constraints =~= old(self)@.constraints.push(constraint@));
    }

    /// Suggests a value for a variable.
    pub fn add_hint(&mut self, var: IntVar, value: i64)
        ensures
            final(self)@ == (ModelView { hints: old(self)@.hints.push((var, value)), ..old(self)@ }),
    {
        self.hints.push((var, value));
    }

    /// Drops all the suggested values.
    pub fn del_hints(&mut self)
        ensures
            final(self)@ == (ModelView { hints: Seq::empty(), ..old(self)@ }),
    {
        self.hints = Vec::new();
    }
}

} // verus!
