//! What holds of the bridge as a whole.
//!
//! [`conversion`] says which problems are accepted and what their models hold, [`responses`] what
//! becomes of a response, [`messages`] what errors say, [`numbers`] what numbers and rounding are,
//! and [`calls`] what each call gives.
use vstd::prelude::*;
use vstd::arithmetic::power2::*;
use vstd::arithmetic::div_mod::*;
use crate::bridge::{CpSatSolution, ProblemView, StateView};
use crate::error::{ErrorView, ResolutionError};
use crate::float::{Float32, Float64};
use crate::model::{CpModelBuilder, IntegerVariableView};
use crate::problem::{Constraint, UnsolvedProblem, Variable, VariableDefinition};
use crate::solver::{CpSolverResponse, CpSolverStatus, SatParameters};
use crate::status::{OutcomeView, SolutionStatus};

pub mod calls;
pub mod conversion;
pub mod messages;
pub mod numbers;
pub mod responses;

verus! {

/// A number converts to an integer exactly where it is that integer.
pub proof fn law_integer_exact(x: Float64, n: i64)
    ensures
        crate::convert::integer_of(x) == Ok::<i64, ErrorView>(n) <==> x.finite() && x.scaled() == n
            * Float64::one(),
{
    let one = Float64::one() as int;
    lemma_pow2_pos(1074);
    if x.integral() {
        x.lemma_integral();
    }
    if x.scaled() == n * one {
        lemma_fundamental_div_mod_converse(n * one, one, n as int, 0);
    }
}

/// An integer is not below a number where it is not below the number rounded up, and not above it
/// where it is not above the number rounded down.
pub proof fn law_rounding_keeps_integers(x: Float64, value: int)
    ensures
        x.scaled() <= value * Float64::one() <==> x.ceil() <= value,
        value * Float64::one() <= x.scaled() <==> value <= x.floor(),
{
    lemma_pow2_pos(1074);
    lemma_floor(x.scaled(), Float64::one() as int, value);
    lemma_floor(-x.scaled(), Float64::one() as int, -value);
    let one = Float64::one() as int;
    assert((-value) * one == -(value * one)) by (nonlinear_arith);
}

proof fn lemma_floor(scaled: int, one: int, value: int)
    requires
        one > 0,
    ensures
        value * one <= scaled <==> value <= scaled / one,
{
    lemma_fundamental_div_mod(scaled, one);
    let q = scaled / one;
    let r = scaled % one;
    if value <= q {
        assert(value * one <= q * one) by (nonlinear_arith)
            requires
                value <= q,
                one > 0,
        ;
        assert(q * one == one * q) by (nonlinear_arith);
    } else {
        assert(value * one >= one * q + one) by (nonlinear_arith)
            requires
                value >= q + 1,
                one > 0,
        ;
    }
}

/// The domain of a converted variable holds the integers between its bounds, and is not empty.
pub proof fn law_domain_exact(def: VariableDefinition, index: nat, value: int)
    requires
        crate::convert::domain_of(def, index) is Ok,
    ensures
        ({
            let domain = crate::convert::domain_of(def, index)->Ok_0;
            &&& domain.lower <= domain.upper
            &&& domain.name == def.name@
            &&& def.admits(value) <==> domain.lower <= value <= domain.upper
        }),
{
    law_rounding_keeps_integers(def.min, value);
    law_rounding_keeps_integers(def.max, value);
}

/// Where the bounds of a variable can be converted, it is refused exactly where no integer lies
/// between them.
pub proof fn law_empty_domain_refused(def: VariableDefinition, index: nat)
    requires
        crate::convert::bound_of(def.min, true) is Ok,
        crate::convert::bound_of(def.max, false) is Ok,
    ensures
        crate::convert::domain_of(def, index) is Err <==> forall|value: int| !def.admits(value),
        crate::convert::domain_of(def, index) is Err ==> crate::convert::domain_of(def, index)
            == Err::<IntegerVariableView, ErrorView>(
            crate::convert::empty_bounds(def, index),
        ),
{
    if crate::convert::domain_of(def, index) is Err {
        assert forall|value: int| !def.admits(value) by {
            law_rounding_keeps_integers(def.min, value);
            law_rounding_keeps_integers(def.max, value);
        }
    } else {
        let lower = crate::convert::domain_of(def, index)->Ok_0.lower as int;
        law_domain_exact(def, index, lower);
        assert(def.admits(lower));
    }
}

/// The opposite of a number is its negative.
proof fn lemma_opposite(x: Float64)
    ensures
        x.opposite().scaled() == -x.scaled(),
{
}

/// The conversion of the first terms looks up no more than that of all the terms.
proof fn lemma_known_prefix(count: nat, terms: Seq<(Variable, Float64)>, keep_zeros: bool)
    requires
        terms.len() > 0,
        crate::convert::terms_known(count, terms, keep_zeros),
    ensures
        crate::convert::terms_known(count, terms.drop_last(), keep_zeros),
{
    let prefix = terms.drop_last();
    assert forall|i: int|
        0 <= i < prefix.len() && (forall|j: int|
            0 <= j <= i ==> crate::convert::integer_of((#[trigger] prefix[j]).1) is Ok) && (
        keep_zeros || crate::convert::integer_of(prefix[i].1) != Ok::<i64, ErrorView>(
            0,
        )) implies (#[trigger] prefix[i]).0.index < count by {
        assert forall|j: int| 0 <= j <= i implies crate::convert::integer_of(
            (#[trigger] terms[j]).1,
        ) is Ok by {
            assert(prefix[j] == terms[j]);
        }
        assert(prefix[i] == terms[i]);
    }
}

/// The last of converted terms has the value of the term it stands for.
proof fn lemma_last_term(
    count: nat,
    terms: Seq<(Variable, Float64)>,
    keep_zeros: bool,
    n: i64,
)
    requires
        count <= usize::MAX,
        terms.len() > 0,
        crate::convert::terms_known(count, terms, keep_zeros),
        crate::convert::terms_of(
            crate::bridge::all_vars(count),
            terms.drop_last(),
            keep_zeros,
        ) is Ok,
        crate::convert::integer_of(terms.last().1) == Ok::<i64, ErrorView>(n),
    ensures
        terms.last().1.scaled() == n * Float64::one(),
        keep_zeros || n != 0 ==> {
            &&& terms.last().0.index < count
            &&& crate::bridge::all_vars(count)[terms.last().0.index as int].index
                == terms.last().0.index
        },
{
    law_integer_exact(terms.last().1, n);
    if keep_zeros || n != 0 {
        let next = terms.len() - 1;
        assert(terms.take(next) =~= terms.drop_last());
        crate::convert::lemma_next_known(crate::bridge::all_vars(count), terms, keep_zeros, next);
    }
}

/// Converted terms have the value of the terms they stand for.
proof fn lemma_terms_value(
    count: nat,
    terms: Seq<(Variable, Float64)>,
    keep_zeros: bool,
    assignment: Seq<int>,
)
    requires
        count <= usize::MAX,
        crate::convert::terms_known(count, terms, keep_zeros),
        crate::convert::terms_of(crate::bridge::all_vars(count), terms, keep_zeros) is Ok,
    ensures
        ({
            let converted = crate::convert::terms_of(
                crate::bridge::all_vars(count),
                terms,
                keep_zeros,
            )->Ok_0;
            &&& crate::problem::scaled_sum(terms, assignment) == crate::model::sum(
                converted,
                assignment,
            ) * Float64::one()
            &&& forall|i: int| 0 <= i < converted.len() ==> (#[trigger] converted[i]).1.index < count
        }),
    decreases terms.len(),
{
    let vars = crate::bridge::all_vars(count);
    let one = Float64::one() as int;
    if terms.len() == 0 {
        assert(0 * one == 0) by (nonlinear_arith);
    } else {
        let prefix = terms.drop_last();
        lemma_known_prefix(count, terms, keep_zeros);
        lemma_terms_value(count, prefix, keep_zeros, assignment);
        let before = crate::convert::terms_of(vars, prefix, keep_zeros)->Ok_0;
        let last = terms.last();
        let n = crate::convert::integer_of(last.1)->Ok_0;
        lemma_last_term(count, terms, keep_zeros, n);
        let x = assignment[last.0.index as int];
        let s = crate::model::sum(before, assignment);
        if keep_zeros || n != 0 {
            let added = before.push((n, vars[last.0.index as int]));
            assert(added.drop_last() =~= before);
            assert((s + n * x) * one == s * one + (n * one) * x) by (nonlinear_arith);
        } else {
            assert((n * one) * x == 0) by (nonlinear_arith)
                requires
                    n == 0,
            ;
        }
    }
}

/// A constraint that could be converted holds where the converted one does: the model keeps the
/// meaning of every constraint.
pub proof fn law_constraint_exact(count: nat, constraint: Constraint, assignment: Seq<int>)
    requires
        count <= usize::MAX,
        crate::convert::constraint_known(count, constraint),
        crate::convert::constraint_of(crate::bridge::all_vars(count), constraint) is Ok,
    ensures
        constraint.holds(assignment) <==> crate::convert::constraint_of(
            crate::bridge::all_vars(count),
            constraint,
        )->Ok_0.holds(assignment),
{
    let terms = constraint.expression.linear.coefficients@;
    let constant = constraint.expression.constant;
    let bound = crate::convert::integer_of(constant.opposite())->Ok_0;
    lemma_terms_value(count, terms, false, assignment);
    law_integer_exact(constant.opposite(), bound);
    lemma_opposite(constant);
    lemma_pow2_pos(1074);
    let one = Float64::one() as int;
    let s = crate::model::sum(
        crate::convert::terms_of(crate::bridge::all_vars(count), terms, false)->Ok_0,
        assignment,
    );
    assert(s * one <= bound * one <==> s <= bound) by (nonlinear_arith)
        requires
            one > 0,
    ;
    assert(s * one == bound * one <==> s == bound) by (nonlinear_arith)
        requires
            one > 0,
    ;
}

/// The converted objective has the value of the objective, its constant included.
pub proof fn law_objective_exact(problem: UnsolvedProblem, assignment: Seq<int>)
    requires
        crate::bridge::model_of(problem) is Ok,
        problem.variables@.len() <= usize::MAX,
        crate::convert::terms_known(
            problem.variables@.len(),
            problem.objective.linear.coefficients@,
            true,
        ),
    ensures
        ({
            let objective = crate::bridge::model_of(problem)->Ok_0.objective;
            &&& objective is Some
            &&& objective->0.direction == problem.direction
            &&& problem.objective.scaled_value(assignment) == objective->0.expr.value(assignment)
                * Float64::one()
        }),
{
    let defs = problem.variables@;
    lemma_domains(defs);
    let terms = problem.objective.linear.coefficients@;
    lemma_terms_value(defs.len(), terms, true, assignment);
    let constant = crate::convert::integer_of(problem.objective.constant)->Ok_0;
    law_integer_exact(problem.objective.constant, constant);
    let one = Float64::one() as int;
    let s = crate::model::sum(
        crate::convert::terms_of(crate::bridge::all_vars(defs.len()), terms, true)->Ok_0,
        assignment,
    );
    assert((s + constant) * one == s * one + constant * one) by (nonlinear_arith);
}

/// Of two assignments the model prefers the one that the problem prefers.
pub proof fn law_objective_order(problem: UnsolvedProblem, a: Seq<int>, b: Seq<int>)
    requires
        crate::bridge::model_of(problem) is Ok,
        problem.variables@.len() <= usize::MAX,
        crate::convert::terms_known(
            problem.variables@.len(),
            problem.objective.linear.coefficients@,
            true,
        ),
    ensures
        ({
            let expr = crate::bridge::model_of(problem)->Ok_0.objective->0.expr;
            expr.value(a) <= expr.value(b) <==> problem.objective.scaled_value(a)
                <= problem.objective.scaled_value(b)
        }),
{
    law_objective_exact(problem, a);
    law_objective_exact(problem, b);
    lemma_pow2_pos(1074);
    let expr = crate::bridge::model_of(problem)->Ok_0.objective->0.expr;
    let x = expr.value(a);
    let y = expr.value(b);
    let one = Float64::one() as int;
    assert(x * one <= y * one <==> x <= y) by (nonlinear_arith)
        requires
            one > 0,
    ;
}

/// Definitions that could be converted give one domain each.
proof fn lemma_domains(defs: Seq<VariableDefinition>)
    requires
        crate::convert::domains_of(defs) is Ok,
    ensures
        ({
            let domains = crate::convert::domains_of(defs)->Ok_0;
            &&& domains.len() == defs.len()
            &&& forall|i: int|
                0 <= i < defs.len() ==> #[trigger] crate::convert::domain_of(defs[i], i as nat)
                    == Ok::<IntegerVariableView, ErrorView>(domains[i])
                    && defs[i].is_integer
        }),
    decreases defs.len(),
{
    if defs.len() > 0 {
        let before = defs.drop_last();
        lemma_domains(before);
        let domains = crate::convert::domains_of(defs)->Ok_0;
        let shorter = crate::convert::domains_of(before)->Ok_0;
        assert forall|i: int| 0 <= i < defs.len() implies #[trigger] crate::convert::domain_of(
            defs[i],
            i as nat,
        ) == Ok::<IntegerVariableView, ErrorView>(domains[i])
            && defs[i].is_integer by {
            if i < before.len() {
                assert(before[i] == defs[i]);
                assert(crate::convert::domain_of(before[i], i as nat) == Ok::<
                    IntegerVariableView,
                    ErrorView,
                >(shorter[i]));
                assert(domains[i] == shorter[i]);
            }
        }
    }
}

/// Before constraints are added, an assignment is feasible where each variable admits its value.
pub proof fn law_variables_exact(problem: UnsolvedProblem, assignment: Seq<int>)
    requires
        crate::bridge::model_of(problem) is Ok,
    ensures
        crate::bridge::model_of(problem)->Ok_0.feasible(assignment) <==> all_admit(
            problem,
            assignment,
        ),
{
    let defs = problem.variables@;
    lemma_domains(defs);
    let model = crate::bridge::model_of(problem)->Ok_0;
    assert forall|i: int| 0 <= i < defs.len() && assignment.len() == defs.len() implies ((
    #[trigger] defs[i]).admits(assignment[i]) <==> model.variables[i].lower <= assignment[i]
        <= model.variables[i].upper) by {
        assert(crate::convert::domain_of(defs[i], i as nat) is Ok);
        law_domain_exact(defs[i], i as nat, assignment[i]);
    }
    if model.feasible(assignment) {
        assert forall|i: int| 0 <= i < assignment.len() implies (#[trigger] defs[i]).admits(
            assignment[i],
        ) by {
            assert(model.variables[i].lower <= assignment[i]);
        }
    }
    if assignment.len() == defs.len() && (forall|i: int|
        0 <= i < assignment.len() ==> (#[trigger] defs[i]).admits(assignment[i])) {
        assert forall|i: int| 0 <= i < model.variables.len() implies (
        #[trigger] model.variables[i]).lower <= assignment[i] <= model.variables[i].upper by {
            assert(defs[i].admits(assignment[i]));
        }
    }
}

/// Adding a constraint leaves feasible the assignments that satisfy it, and no others.
pub proof fn law_added_constraint_exact(
    problem: ProblemView,
    constraint: Constraint,
    assignment: Seq<int>,
)
    requires
        problem.wf(),
        problem.state is Valid,
        crate::convert::constraint_known(problem.state->vars.len(), constraint),
        problem.with_constraint(constraint).state is Valid,
    ensures
        problem.with_constraint(constraint).state->model.feasible(assignment) <==> {
            &&& problem.state->model.feasible(assignment)
            &&& constraint.holds(assignment)
        },
{
    let model = problem.state->model;
    let after = problem.with_constraint(constraint).state->model;
    let count = model.variables.len();
    law_constraint_exact(count, constraint, assignment);
    let added = crate::convert::constraint_of(crate::bridge::all_vars(count), constraint)->Ok_0;
    assert(after.constraints[after.constraints.len() - 1] == added);
    if after.feasible(assignment) {
        assert forall|i: int| 0 <= i < model.constraints.len() implies (
        #[trigger] model.constraints[i]).holds(assignment) by {
            assert(after.constraints[i].holds(assignment));
        }
    }
}

/// Whether an assignment satisfies all of some constraints.
pub open spec fn all_hold(constraints: Seq<Constraint>, assignment: Seq<int>) -> bool {
    forall|i: int| 0 <= i < constraints.len() ==> (#[trigger] constraints[i]).holds(assignment)
}

/// Whether the conversion of constraints looks up known variables only.
pub open spec fn all_known(count: nat, constraints: Seq<Constraint>) -> bool {
    forall|i: int|
        0 <= i < constraints.len() ==> crate::convert::constraint_known(
            count,
            #[trigger] constraints[i],
        )
}

/// Whether each variable of a problem admits its value.
pub open spec fn all_admit(problem: UnsolvedProblem, assignment: Seq<int>) -> bool {
    &&& assignment.len() == problem.variables@.len()
    &&& forall|i: int|
        0 <= i < assignment.len() ==> (#[trigger] problem.variables@[i]).admits(assignment[i])
}

/// The model of a problem says what the problem says: after any constraints, an assignment is
/// feasible exactly where each variable admits its value and each constraint holds, and what is
/// optimised is the objective.
pub proof fn law_model_exact(
    problem: UnsolvedProblem,
    constraints: Seq<Constraint>,
    assignment: Seq<int>,
)
    requires
        problem.variables@.len() <= usize::MAX,
        crate::convert::terms_known(
            problem.variables@.len(),
            problem.objective.linear.coefficients@,
            true,
        ),
        all_known(problem.variables@.len(), constraints),
        with_constraints(crate::bridge::converted(problem), constraints).state is Valid,
    ensures
        ({
            let model = with_constraints(crate::bridge::converted(problem), constraints).state->model;
            &&& model.feasible(assignment) <==> all_admit(problem, assignment) && all_hold(
                constraints,
                assignment,
            )
            &&& model.objective is Some
            &&& model.objective->0.direction == problem.direction
            &&& problem.objective.scaled_value(assignment) == model.objective->0.expr.value(
                assignment,
            ) * Float64::one()
        }),
{
    lemma_with_constraints(problem, constraints, assignment);
    law_objective_exact(problem, assignment);
    law_variables_exact(problem, assignment);
}

proof fn lemma_split_constraints(
    count: nat,
    constraints: Seq<Constraint>,
    assignment: Seq<int>,
)
    requires
        constraints.len() > 0,
        all_known(count, constraints),
    ensures
        all_known(count, constraints.drop_last()),
        crate::convert::constraint_known(count, constraints.last()),
        all_hold(constraints, assignment) <==> all_hold(constraints.drop_last(), assignment)
            && constraints.last().holds(assignment),
{
    let shorter = constraints.drop_last();
    assert forall|i: int| 0 <= i < shorter.len() implies crate::convert::constraint_known(
        count,
        #[trigger] shorter[i],
    ) by {
        assert(shorter[i] == constraints[i]);
    }
    assert(constraints[constraints.len() - 1] == constraints.last());
    if all_hold(constraints, assignment) {
        assert forall|i: int| 0 <= i < shorter.len() implies (#[trigger] shorter[i]).holds(
            assignment,
        ) by {
            assert(constraints[i].holds(assignment));
        }
    }
    if all_hold(shorter, assignment) && constraints.last().holds(assignment) {
        assert forall|i: int| 0 <= i < constraints.len() implies (#[trigger] constraints[i]).holds(
            assignment,
        ) by {
            if i < shorter.len() {
                assert(shorter[i].holds(assignment));
            }
        }
    }
}

proof fn lemma_with_constraints(
    problem: UnsolvedProblem,
    constraints: Seq<Constraint>,
    assignment: Seq<int>,
)
    requires
        problem.variables@.len() <= usize::MAX,
        crate::convert::terms_known(
            problem.variables@.len(),
            problem.objective.linear.coefficients@,
            true,
        ),
        all_known(problem.variables@.len(), constraints),
        with_constraints(crate::bridge::converted(problem), constraints).state is Valid,
    ensures
        crate::bridge::model_of(problem) is Ok,
        ({
            let start = crate::bridge::model_of(problem)->Ok_0;
            let after = with_constraints(crate::bridge::converted(problem), constraints);
            let model = after.state->model;
            &&& after.wf()
            &&& after.state->vars.len() == problem.variables@.len()
            &&& model.objective == start.objective
            &&& model.feasible(assignment) <==> start.feasible(assignment) && all_hold(
                constraints,
                assignment,
            )
        }),
    decreases constraints.len(),
{
    if constraints.len() == 0 {
        law_converted_is_well_formed(problem);
        lemma_domains(problem.variables@);
    } else {
        let shorter = constraints.drop_last();
        let last = constraints.last();
        let before = with_constraints(crate::bridge::converted(problem), shorter);
        lemma_split_constraints(problem.variables@.len(), constraints, assignment);
        if before.state is Invalid {
            law_error_is_kept(before, last, Seq::empty());
        }
        lemma_with_constraints(problem, shorter, assignment);
        law_added_constraint_exact(before, last, assignment);
        law_constraint_keeps_well_formed(before, last);
    }
}

/// Putting a state in error twice is putting it in error once: the first error stays, and so does
/// the counter that came with it.
pub proof fn law_first_error_stays(
    state: StateView,
    reason: ErrorView,
    index: usize,
    later_reason: ErrorView,
    later_index: usize,
)
    ensures
        state is Valid ==> state.invalidated(reason, index) == (StateView::Invalid {
            reason,
            next_constraint_index: index,
        }),
        state is Invalid ==> state.invalidated(reason, index) == state,
        state.invalidated(reason, index).invalidated(later_reason, later_index)
            == state.invalidated(reason, index),
{
}

/// A problem in error stays in error, with the error that it had first.
pub proof fn law_error_is_kept(
    problem: ProblemView,
    constraint: Constraint,
    values: Seq<(Variable, Float64)>,
)
    requires
        problem.state is Invalid,
    ensures
        problem.with_constraint(constraint).state is Invalid,
        problem.with_constraint(constraint).state->reason == problem.state->reason,
        problem.with_hints(values) == problem,
        problem.without_hints() == problem,
{
}

/// Constraints are numbered from zero, whatever becomes of them.
pub proof fn law_references_start_at_zero(problem: UnsolvedProblem)
    ensures
        crate::bridge::converted(problem).next_index() == 0,
{
}

/// The problem with constraints added, one after the other.
pub open spec fn with_constraints(problem: ProblemView, constraints: Seq<Constraint>) -> ProblemView
    decreases constraints.len(),
{
    if constraints.len() == 0 {
        problem
    } else {
        with_constraints(problem, constraints.drop_last()).with_constraint(constraints.last())
    }
}

/// Each constraint takes the next reference, also where it is dropped and where it puts the
/// problem in error. So no two constraints share a reference.
pub proof fn law_references_are_consecutive(problem: ProblemView, constraints: Seq<Constraint>)
    requires
        problem.next_index() + constraints.len() <= usize::MAX,
    ensures
        with_constraints(problem, constraints).next_index() == problem.next_index()
            + constraints.len(),
    decreases constraints.len(),
{
    if constraints.len() > 0 {
        law_references_are_consecutive(problem, constraints.drop_last());
    }
}

/// Hints leave the numbering of constraints alone.
pub proof fn law_hints_keep_references(problem: ProblemView, values: Seq<(Variable, Float64)>)
    ensures
        problem.with_hints(values).next_index() == problem.next_index(),
        problem.without_hints().next_index() == problem.next_index(),
{
}

/// Clearing hints undoes adding them.
pub proof fn law_cleared_hints_are_gone(problem: ProblemView, values: Seq<(Variable, Float64)>)
    ensures
        problem.with_hints(values).without_hints() == problem.without_hints(),
        problem.without_hints().without_hints() == problem.without_hints(),
        problem.state is Valid ==> problem.without_hints().state->model.hints.len() == 0,
{
}

/// Hints and constraints can be given in any order.
pub proof fn law_hints_and_constraints_commute(
    problem: ProblemView,
    values: Seq<(Variable, Float64)>,
    constraint: Constraint,
)
    ensures
        problem.with_hints(values).with_constraint(constraint) == problem.with_constraint(
            constraint,
        ).with_hints(values),
        problem.without_hints().with_constraint(constraint) == problem.with_constraint(
            constraint,
        ).without_hints(),
{
}

/// Hints change neither what is feasible nor what is optimised.
pub proof fn law_hints_keep_the_problem(
    problem: ProblemView,
    values: Seq<(Variable, Float64)>,
    assignment: Seq<int>,
)
    requires
        problem.state is Valid,
    ensures
        ({
            let model = problem.with_hints(values).state->model;
            &&& problem.with_hints(values).state is Valid
            &&& model.feasible(assignment) <==> problem.state->model.feasible(assignment)
            &&& model.objective == problem.state->model.objective
        }),
{
    let before = problem.state->model;
    let after = problem.with_hints(values).state->model;
    assert(after.variables == before.variables);
    assert(after.constraints == before.constraints);
    assert(after.feasible(assignment) == before.feasible(assignment));
}

/// A converted problem is well formed, and has the variables that were defined.
pub proof fn law_converted_is_well_formed(problem: UnsolvedProblem)
    requires
        problem.variables@.len() <= usize::MAX,
        crate::convert::domains_of(problem.variables@) is Ok ==> crate::convert::terms_known(
            problem.variables@.len(),
            problem.objective.linear.coefficients@,
            true,
        ),
    ensures
        crate::bridge::converted(problem).wf(),
        crate::bridge::converted(problem).state is Valid
            ==> crate::bridge::converted(problem).state->vars.len() == problem.variables@.len(),
{
    let defs = problem.variables@;
    if crate::bridge::model_of(problem) is Ok {
        let model = crate::bridge::model_of(problem)->Ok_0;
        lemma_domains(defs);
        lemma_terms_value(
            defs.len(),
            problem.objective.linear.coefficients@,
            true,
            Seq::empty(),
        );
        assert forall|i: int| 0 <= i < model.variables.len() implies (
        #[trigger] model.variables[i]).lower <= model.variables[i].upper by {
            assert(crate::convert::domain_of(defs[i], i as nat) is Ok);
            law_domain_exact(defs[i], i as nat, 0);
        }
        crate::bridge::lemma_initial_values_known(defs);
        lemma_hints_known(defs.len(), crate::convert::initial_values(defs));
    }
}

/// Hints that are given to known variables name known variables.
proof fn lemma_hints_known(count: nat, values: Seq<(Variable, Float64)>)
    requires
        count <= usize::MAX,
        crate::convert::hints_known(count, values),
    ensures
        ({
            let hints = crate::convert::hints_of(crate::bridge::all_vars(count), values);
            forall|i: int| 0 <= i < hints.len() ==> (#[trigger] hints[i]).0.index < count
        }),
    decreases values.len(),
{
    if values.len() > 0 {
        let before = values.drop_last();
        assert forall|i: int|
            0 <= i < before.len() && crate::convert::integer_of(
                (#[trigger] before[i]).1,
            ) is Ok implies before[i].0.index < count by {
            assert(before[i] == values[i]);
        }
        lemma_hints_known(count, before);
        assert(values[values.len() - 1] == values.last());
        let shorter = crate::convert::hints_of(crate::bridge::all_vars(count), before);
        let hints = crate::convert::hints_of(crate::bridge::all_vars(count), values);
        assert forall|i: int| 0 <= i < hints.len() implies (#[trigger] hints[i]).0.index
            < count by {
            if i < shorter.len() {
                assert(hints[i] == shorter[i]);
            }
        }
    }
}

/// Adding a constraint keeps a problem well formed.
pub proof fn law_constraint_keeps_well_formed(problem: ProblemView, constraint: Constraint)
    requires
        problem.wf(),
        problem.state is Valid ==> crate::convert::constraint_known(
            problem.state->vars.len(),
            constraint,
        ),
    ensures
        problem.with_constraint(constraint).wf(),
{
    if problem.with_constraint(constraint).state is Valid {
        let model = problem.state->model;
        let count = model.variables.len();
        lemma_terms_value(
            count,
            constraint.expression.linear.coefficients@,
            false,
            Seq::empty(),
        );
        let after = problem.with_constraint(constraint).state->model;
        assert forall|i: int| 0 <= i < after.constraints.len() implies (
        #[trigger] after.constraints[i]).expr.names_below(count) by {
            if i < model.constraints.len() {
                assert(after.constraints[i] == model.constraints[i]);
            }
        }
    }
}

/// Adding and dropping hints keep a problem well formed.
pub proof fn law_hints_keep_well_formed(problem: ProblemView, values: Seq<(Variable, Float64)>)
    requires
        problem.wf(),
        problem.state is Valid ==> crate::convert::hints_known(problem.state->vars.len(), values),
    ensures
        problem.with_hints(values).wf(),
        problem.without_hints().wf(),
{
    if problem.state is Valid {
        let model = problem.state->model;
        let count = model.variables.len();
        lemma_hints_known(count, values);
        let hinted = problem.with_hints(values).state->model;
        assert forall|i: int| 0 <= i < hinted.hints.len() implies (
        #[trigger] hinted.hints[i]).0.index < count by {
            if i < model.hints.len() {
                assert(hinted.hints[i] == model.hints[i]);
            } else {
                assert(hinted.hints[i] == crate::convert::hints_of(problem.state->vars, values)[i
                    - model.hints.len()]);
            }
        }
    }
}

/// Where the objective has reached its bound, no gap is left that a limit could have allowed.
pub proof fn law_no_gap_at_the_bound(response: CpSolverResponse, params: SatParameters)
    requires
        response.objective_value == response.best_objective_bound,
    ensures
        !crate::status::gap_reached(response, params),
{
    if response.objective_value.finite() {
        let format = crate::format::Format::binary64();
        crate::float::lemma_binary64();
        assert(format.units(0) == 0);
        format.lemma_exact(0);
    }
}

/// Without a gap limit, none is reached.
pub proof fn law_no_gap_without_limit(response: CpSolverResponse, params: SatParameters)
    requires
        params.absolute_gap_limit is None,
        params.relative_gap_limit is None,
    ensures
        !crate::status::gap_reached(response, params),
{
}

/// A solution is called optimal only where the solver says so and no gap limit was reached; a
/// solution that is merely feasible never is.
pub proof fn law_optimal_is_proved(response: CpSolverResponse, params: SatParameters)
    ensures
        crate::status::outcome_of(response, params) == OutcomeView::Solved(SolutionStatus::Optimal)
            <==> response.status == CpSolverStatus::Optimal && !crate::status::gap_reached(
            response,
            params,
        ),
{
}

/// A solution comes out only of a response that claims one, and a feasible or unproved one only
/// where a gap limit or a time limit accounts for it.
pub proof fn law_solution_is_accounted_for(response: CpSolverResponse, params: SatParameters)
    ensures
        crate::status::outcome_of(response, params) is Solved <==> {
            ||| response.status == CpSolverStatus::Optimal
            ||| {
                &&& response.status == CpSolverStatus::Feasible || (response.status
                    == CpSolverStatus::Unknown && response.solution@.len() > 0)
                &&& crate::status::gap_reached(response, params) || params.time_limited()
            }
        },
{
}

/// A gap tolerance is accepted exactly where it is non-negative and finite; in 32 bits as in 64.
pub proof fn law_gap_check_widens(mip_gap: Float32)
    ensures
        crate::convert::gap_check(mip_gap.widened()) is Ok <==> !mip_gap.negative()
            && mip_gap.finite(),
{
    mip_gap.lemma_widened();
}

/// The relative gap tolerance reads back as it was set.
pub proof fn law_mip_gap_reads_back(mip_gap: Float32)
    requires
        crate::convert::gap_check(mip_gap.widened()) is Ok,
    ensures
        mip_gap.widened().narrowed() == mip_gap,
{
    law_gap_check_widens(mip_gap);
    crate::arithmetic::lemma_narrow_widened(mip_gap);
}

/// In a well-formed problem each variable is the model's variable of the same position, so its
/// value is the one at that position of a solution.
pub proof fn law_variables_keep_their_positions(problem: ProblemView, variable: Variable)
    requires
        problem.wf(),
        problem.state is Valid,
        variable.index < problem.state->vars.len(),
    ensures
        problem.state->vars[variable.index as int].index == variable.index,
        problem.state->vars.len() == problem.state->model.variables.len(),
{
}

/// The value of a variable is an integer. It is exact where the number can be held, as every
/// integer of at most 53 bits can.
pub proof fn law_value_exact(n: i64)
    ensures
        Float64::of_integer(n as int).integral(),
        forall|magnitude: nat| #[trigger]
            crate::format::Format::binary64().units(magnitude) == crate::arithmetic::absolute(
                n as int,
            ) * Float64::one() ==> Float64::of_integer(n as int).scaled() == n * Float64::one(),
        Float64::holds_integer(n as int) <==> Float64::of_integer(n as int).scaled() == n
            * Float64::one(),
        Float64::holds_integer(n as int) ==> crate::convert::integer_of(
            Float64::of_integer(n as int),
        ) == Ok::<i64, ErrorView>(n),
        -0x20_0000_0000_0000 <= n <= 0x20_0000_0000_0000 ==> Float64::holds_integer(n as int),
{
    let format = crate::format::Format::binary64();
    let one = Float64::one();
    let size = crate::arithmetic::absolute(n as int);
    let value = Float64::of_integer(n as int);
    crate::arithmetic::lemma_integer_stays_integral(n as int);
    law_integer_exact(value, n);
    assert forall|magnitude: nat| #[trigger] format.units(magnitude) == size * one implies
        value.scaled() == n * one by {
        crate::arithmetic::lemma_held_integer(n as int, magnitude);
    }
    if Float64::holds_integer(n as int) {
        let number = choose|number: Float64|
            #![trigger number.scaled()]
            number.finite() && number.scaled() == n * one;
        lemma_pow2_pos(1074);
        assert(n < 0 ==> -(n * one) == size * one && n * one < 0) by (nonlinear_arith)
            requires
                size == crate::arithmetic::absolute(n as int),
                n < 0 ==> size == -n,
                one > 0,
        ;
        assert(n >= 0 ==> n * one == size * one && n * one >= 0) by (nonlinear_arith)
            requires
                n >= 0 ==> size == n,
        ;
        assert(format.units(number.magnitude()) == size * one);
    }
    if -0x20_0000_0000_0000 <= n <= 0x20_0000_0000_0000 {
        let magnitude = crate::arithmetic::lemma_small_integer(size);
        assert(format.units(magnitude) == size * one);
    }
}

/// Whether a problem is one that was converted, with constraints added. It may have been given any
/// hints and any parameters besides.
pub open spec fn states(
    solved: ProblemView,
    problem: UnsolvedProblem,
    constraints: Seq<Constraint>,
) -> bool {
    &&& problem.variables@.len() <= usize::MAX
    &&& crate::convert::domains_of(problem.variables@) is Ok ==> crate::convert::terms_known(
        problem.variables@.len(),
        problem.objective.linear.coefficients@,
        true,
    )
    &&& all_known(problem.variables@.len(), constraints)
    &&& solved.without_hints().state == with_constraints(
        crate::bridge::converted(problem),
        constraints,
    ).without_hints().state
}

/// Whether an assignment is one that a problem with constraints asks for.
pub open spec fn satisfies(
    problem: UnsolvedProblem,
    constraints: Seq<Constraint>,
    assignment: Seq<int>,
) -> bool {
    all_admit(problem, assignment) && all_hold(constraints, assignment)
}

/// Whether a 64-bit number can hold each value of a solution.
pub open spec fn all_held(solution: Seq<i64>) -> bool {
    forall|i: int| 0 <= i < solution.len() ==> Float64::holds_integer(#[trigger] solution[i] as int)
}

/// A problem states what was converted, from its conversion on: hints and parameters change nothing
/// in that, and a constraint adds itself.
pub proof fn law_problem_states_what_was_asked(
    solved: ProblemView,
    problem: UnsolvedProblem,
    constraints: Seq<Constraint>,
    values: Seq<(Variable, Float64)>,
    params: SatParameters,
    constraint: Constraint,
)
    requires
        states(solved, problem, constraints),
        crate::convert::constraint_known(problem.variables@.len(), constraint),
    ensures
        states(crate::bridge::converted(problem), problem, Seq::empty()),
        states(solved.with_hints(values), problem, constraints),
        states(solved.without_hints(), problem, constraints),
        states(ProblemView { params, ..solved }, problem, constraints),
        states(solved.with_constraint(constraint), problem, constraints.push(constraint)),
{
    let start = crate::bridge::converted(problem);
    let stated = with_constraints(start, constraints);
    let longer = constraints.push(constraint);
    law_cleared_hints_are_gone(solved, values);
    assert(longer.drop_last() =~= constraints);
    law_hints_and_constraints_commute(solved, values, constraint);
    law_hints_and_constraints_commute(stated, values, constraint);
    assert(with_constraints(start, longer) == stated.with_constraint(constraint));
}

/// A problem that is solved has the model of the problem that was stated, but for hints.
proof fn lemma_states(
    solved: ProblemView,
    problem: UnsolvedProblem,
    constraints: Seq<Constraint>,
    assignment: Seq<int>,
)
    requires
        states(solved, problem, constraints),
        solved.state is Valid,
    ensures
        solved.state->vars == crate::bridge::all_vars(problem.variables@.len()),
        solved.state->model.feasible(assignment) <==> satisfies(problem, constraints, assignment),
        solved.state->model.objective is Some,
        solved.state->model.objective->0.direction == problem.direction,
        problem.objective.scaled_value(assignment) == solved.state->model.objective->0.expr.value(
            assignment,
        ) * Float64::one(),
{
    let stated = with_constraints(crate::bridge::converted(problem), constraints);
    assert(stated.state is Valid);
    if crate::convert::domains_of(problem.variables@) is Err {
        lemma_error_lasts(crate::bridge::converted(problem), constraints);
    }
    law_model_exact(problem, constraints, assignment);
    lemma_with_constraints(problem, constraints, assignment);
    assert(solved.state->model.feasible(assignment) == stated.state->model.feasible(assignment));
}

/// No constraint takes a problem out of error.
proof fn lemma_error_lasts(problem: ProblemView, constraints: Seq<Constraint>)
    requires
        problem.state is Invalid,
    ensures
        with_constraints(problem, constraints).state is Invalid,
    decreases constraints.len(),
{
    if constraints.len() > 0 {
        lemma_error_lasts(problem, constraints.drop_last());
    }
}

/// Where the solver has found a feasible assignment of its model, each variable of the problem has
/// a value, which is an integer and lies within the bounds of the variable. The bounds are 64-bit
/// numbers, so rounding a value takes it past neither of them.
pub proof fn law_solution_is_within_bounds<V: FnOnce(&CpModelBuilder) -> String>(
    solved: ProblemView,
    problem: UnsolvedProblem,
    constraints: Seq<Constraint>,
    model: CpModelBuilder,
    response: CpSolverResponse,
    validate: V,
    result: Result<CpSatSolution, ResolutionError>,
)
    requires
        states(solved, problem, constraints),
        solved.state is Valid,
        solved.answers(model, response, validate, result),
        result is Ok,
        solved.state->model.feasible(response.assignment()),
    ensures
        ({
            let solution = result->Ok_0@;
            &&& forall|variable: Variable|
                variable.index < problem.variables@.len() ==> solution.has_value(variable)
                    && #[trigger] solution.value_of(variable).integral()
            &&& all_admit(problem, solution.assignment())
        }),
{
    let solution = result->Ok_0@;
    let defs = problem.variables@;
    lemma_states(solved, problem, constraints, response.assignment());
    assert(response.solution@.len() == defs.len());
    assert forall|variable: Variable| variable.index < defs.len() implies solution.has_value(
        variable,
    ) && #[trigger] solution.value_of(variable).integral() by {
        law_value_exact(solution.integer_of(variable));
    }
    lemma_bounds_finite(solved, problem, constraints);
    assert forall|i: int| 0 <= i < solution.assignment().len() implies (#[trigger] defs[i]).admits(
        solution.assignment()[i],
    ) by {
        let n = response.solution@[i];
        let value = solution.value_of(Variable { index: i as usize });
        assert(value == Float64::of_integer(n as int));
        assert(defs[i].admits(response.assignment()[i]));
        law_value_exact(n);
        value.lemma_integral();
        crate::arithmetic::lemma_integer_side(n as int, defs[i].min);
        crate::arithmetic::lemma_integer_side(n as int, defs[i].max);
    }
}

/// The bounds of variables that could be converted are finite.
proof fn lemma_bounds_finite(
    solved: ProblemView,
    problem: UnsolvedProblem,
    constraints: Seq<Constraint>,
)
    requires
        states(solved, problem, constraints),
        solved.state is Valid,
    ensures
        forall|i: int|
            0 <= i < problem.variables@.len() ==> (#[trigger] problem.variables@[i]).min.finite()
                && problem.variables@[i].max.finite(),
{
    let defs = problem.variables@;
    if crate::bridge::converted(problem).state is Invalid {
        lemma_error_lasts(crate::bridge::converted(problem), constraints);
    }
    lemma_domains(defs);
    assert forall|i: int| 0 <= i < defs.len() implies (#[trigger] defs[i]).min.finite()
        && defs[i].max.finite() by {
        assert(crate::convert::domain_of(defs[i], i as nat) is Ok);
    }
}

/// Where the solver has found a feasible assignment of its model, and 64-bit numbers can hold it,
/// that assignment is what comes out, and it satisfies every constraint of the problem.
pub proof fn law_solution_satisfies_the_problem<V: FnOnce(&CpModelBuilder) -> String>(
    solved: ProblemView,
    problem: UnsolvedProblem,
    constraints: Seq<Constraint>,
    model: CpModelBuilder,
    response: CpSolverResponse,
    validate: V,
    result: Result<CpSatSolution, ResolutionError>,
)
    requires
        states(solved, problem, constraints),
        solved.state is Valid,
        solved.answers(model, response, validate, result),
        result is Ok,
        solved.state->model.feasible(response.assignment()),
        all_held(response.solution@),
    ensures
        ({
            let solution = result->Ok_0@;
            &&& forall|variable: Variable|
                variable.index < problem.variables@.len() ==> solution.has_value(variable)
                    && #[trigger] solution.value_of(variable).integral()
            &&& solution.assignment() == response.assignment()
            &&& satisfies(problem, constraints, solution.assignment())
        }),
{
    let solution = result->Ok_0@;
    let count = problem.variables@.len();
    law_solution_is_within_bounds(
        solved,
        problem,
        constraints,
        model,
        response,
        validate,
        result,
    );
    lemma_states(solved, problem, constraints, response.assignment());
    assert forall|i: int| 0 <= i < count implies #[trigger] solution.assignment()[i]
        == response.assignment()[i] by {
        let variable = Variable { index: i as usize };
        assert(solution.has_value(variable));
        assert(Float64::holds_integer(response.solution@[i] as int));
        law_value_exact(response.solution@[i]);
    }
    assert(solution.assignment() =~= response.assignment());
}

/// Where the solver is right about its model and the status is optimal, the values that come out
/// satisfy the problem and give its objective a value at least as good as any other assignment
/// that satisfies it. The values are those of the problem's variables, which 64-bit numbers have
/// to hold.
pub proof fn law_optimal_solution_is_best<V: FnOnce(&CpModelBuilder) -> String>(
    solved: ProblemView,
    problem: UnsolvedProblem,
    constraints: Seq<Constraint>,
    model: CpModelBuilder,
    response: CpSolverResponse,
    validate: V,
    result: Result<CpSatSolution, ResolutionError>,
    other: Seq<int>,
)
    requires
        states(solved, problem, constraints),
        solved.state is Valid,
        solved.answers(model, response, validate, result),
        result is Ok,
        result->Ok_0@.status == SolutionStatus::Optimal,
        response.status == CpSolverStatus::Optimal && !crate::status::gap_reached(
            response,
            solved.params,
        ) ==> solved.state->model.optimal(response.assignment()),
        all_held(response.solution@),
    ensures
        ({
            let solution = result->Ok_0@;
            &&& forall|variable: Variable|
                variable.index < problem.variables@.len() ==> solution.has_value(variable)
                    && #[trigger] solution.value_of(variable).integral()
            &&& satisfies(problem, constraints, solution.assignment())
            &&& satisfies(problem, constraints, other) ==> problem.direction.at_least_as_good(
                problem.objective.scaled_value(solution.assignment()),
                problem.objective.scaled_value(other),
            )
        }),
{
    law_optimal_is_proved(response, solved.params);
    law_solution_satisfies_the_problem(
        solved,
        problem,
        constraints,
        model,
        response,
        validate,
        result,
    );
    lemma_states(solved, problem, constraints, response.assignment());
    lemma_states(solved, problem, constraints, other);
    if satisfies(problem, constraints, other) {
        lemma_pow2_pos(1074);
        let expr = solved.state->model.objective->0.expr;
        let x = expr.value(response.assignment());
        let y = expr.value(other);
        let one = Float64::one() as int;
        assert(x * one <= y * one <==> x <= y) by (nonlinear_arith)
            requires
                one > 0,
        ;
        assert(y * one <= x * one <==> y <= x) by (nonlinear_arith)
            requires
                one > 0,
        ;
    }
}

/// Where the solver is right that its model has no feasible assignment, the problem has none: the
/// answer that a problem is infeasible is about the problem as it was stated.
pub proof fn law_infeasible_is_about_the_problem<V: FnOnce(&CpModelBuilder) -> String>(
    solved: ProblemView,
    problem: UnsolvedProblem,
    constraints: Seq<Constraint>,
    model: CpModelBuilder,
    response: CpSolverResponse,
    validate: V,
    result: Result<CpSatSolution, ResolutionError>,
    assignment: Seq<int>,
)
    requires
        states(solved, problem, constraints),
        solved.state is Valid,
        solved.answers(model, response, validate, result),
        result is Err,
        result->Err_0@ == ErrorView::Infeasible,
        response.status == CpSolverStatus::Infeasible ==> !solved.state->model.feasible(assignment),
    ensures
        !satisfies(problem, constraints, assignment),
{
    lemma_states(solved, problem, constraints, assignment);
}

} // verus!
