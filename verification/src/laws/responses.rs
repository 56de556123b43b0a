//! What holds of responses: when a gap limit is reached, what becomes of each response, and which
//! values come out.
use vstd::prelude::*;
use vstd::arithmetic::power2::*;
use crate::bridge::{CpSatSolution, ProblemView};
use crate::error::{ErrorView, ResolutionError};
use crate::float::{Float64, INFINITY64};
use crate::format::Format;
use crate::model::CpModelBuilder;
use crate::problem::{Constraint, UnsolvedProblem, Variable};
use crate::solver::{CpSolverResponse, CpSolverStatus, SatParameters};
use crate::status::{OutcomeView, SolutionStatus};

verus! {

/// Whether a limit is set, and a number of units does not exceed it.
pub open spec fn within(limit: Option<Float64>, units: nat) -> bool {
    limit is Some && !limit->0.nan() && units <= limit->0.scaled()
}

/// Between finite numbers a gap limit is reached where objective and bound differ, and either their
/// rounded distance does not exceed the absolute limit, or that distance divided by the greater of
/// the size of the objective and 1, rounded again, does not exceed the relative one.
///
/// The rounded distance and the rounded quotient have the magnitudes `gap` and `relative`.
pub proof fn law_gap_of_finite_numbers(
    response: CpSolverResponse,
    params: SatParameters,
    gap: nat,
    relative: nat,
)
    requires
        ({
            let format = Format::binary64();
            let objective = response.objective_value;
            let bound = response.best_objective_bound;
            let size = format.units(objective.magnitude());
            &&& objective.finite()
            &&& bound.finite()
            &&& format.rounds_to(
                crate::arithmetic::absolute(objective.scaled() - bound.scaled()),
                1,
                gap,
            )
            &&& gap == INFINITY64 ==> relative == INFINITY64
            &&& gap < INFINITY64 ==> format.rounds_to(
                format.units(gap) * Float64::one(),
                if size > Float64::one() {
                    size
                } else {
                    Float64::one()
                },
                relative,
            )
        }),
    ensures
        crate::status::gap_reached(response, params) <==> {
            &&& response.objective_value.scaled() != response.best_objective_bound.scaled()
            &&& {
                ||| within(params.absolute_gap_limit, Format::binary64().units(gap))
                ||| within(params.relative_gap_limit, Format::binary64().units(relative))
            }
        },
{
    let format = Format::binary64();
    let objective = response.objective_value;
    let bound = response.best_objective_bound;
    crate::float::lemma_binary64();
    lemma_pow2_pos(1074);
    let distance = crate::arithmetic::absolute(objective.scaled() - bound.scaled());
    crate::laws::numbers::law_difference(objective, bound);
    crate::laws::numbers::law_difference_of_distinct(objective, bound);
    format.lemma_rounds_to_unique(distance, 1, gap, objective.difference(bound)->0);
    crate::laws::numbers::law_at_least_one(objective);
    let divisor = objective.at_least_one();
    assert(divisor > 0);
    crate::laws::numbers::law_quotient(gap, divisor);
    if gap < INFINITY64 {
        format.lemma_rounds_to_unique(
            format.units(gap) * Float64::one(),
            format.units(divisor),
            relative,
            Float64::quotient(gap, divisor)->0,
        );
    }
    if params.absolute_gap_limit is Some {
        crate::laws::numbers::law_not_below(params.absolute_gap_limit->0, gap);
    }
    if params.relative_gap_limit is Some {
        crate::laws::numbers::law_not_below(params.relative_gap_limit->0, relative);
    }
}

/// Whether a limit is set and infinite.
pub open spec fn unlimited(limit: Option<Float64>) -> bool {
    limit is Some && limit->0.infinite() && !limit->0.negative()
}

/// Where objective or bound is no number, or both are the same infinity, no limit is reached.
/// Otherwise, where one of them is infinite, an infinite absolute limit is reached, and an infinite
/// relative one if the objective is finite; no other is.
pub proof fn law_gap_of_infinite_numbers(response: CpSolverResponse, params: SatParameters)
    requires
        !response.objective_value.finite() || !response.best_objective_bound.finite(),
    ensures
        ({
            let objective = response.objective_value;
            let bound = response.best_objective_bound;
            let undefined = objective.nan() || bound.nan() || (objective.infinite()
                && bound.infinite() && objective.negative() == bound.negative());
            crate::status::gap_reached(response, params) <==> {
                &&& !undefined
                &&& unlimited(params.absolute_gap_limit) || (unlimited(params.relative_gap_limit)
                    && objective.finite())
            }
        }),
{
    let objective = response.objective_value;
    let bound = response.best_objective_bound;
    crate::laws::numbers::law_difference(objective, bound);
    if objective.difference(bound) is Some {
        crate::laws::numbers::law_at_least_one(objective);
        crate::laws::numbers::law_quotient(INFINITY64 as nat, objective.at_least_one());
        if params.absolute_gap_limit is Some {
            crate::laws::numbers::law_not_below(
                params.absolute_gap_limit->0,
                INFINITY64 as nat,
            );
        }
        if params.relative_gap_limit is Some {
            crate::laws::numbers::law_not_below(
                params.relative_gap_limit->0,
                INFINITY64 as nat,
            );
        }
    }
}

/// Whether a gap limit is reached depends on the objective, its bound and the two limits only.
pub proof fn law_gap_depends_on_four_numbers(
    response: CpSolverResponse,
    params: SatParameters,
    other_response: CpSolverResponse,
    other_params: SatParameters,
)
    requires
        response.objective_value == other_response.objective_value,
        response.best_objective_bound == other_response.best_objective_bound,
        params.absolute_gap_limit == other_params.absolute_gap_limit,
        params.relative_gap_limit == other_params.relative_gap_limit,
    ensures
        crate::status::gap_reached(response, params) == crate::status::gap_reached(
            other_response,
            other_params,
        ),
{
}

/// Greater limits are reached where lesser ones are.
pub proof fn law_gap_grows_with_its_limits(
    response: CpSolverResponse,
    params: SatParameters,
    wider: SatParameters,
)
    requires
        crate::status::gap_reached(response, params),
        params.absolute_gap_limit is Some ==> {
            &&& wider.absolute_gap_limit is Some
            &&& !wider.absolute_gap_limit->0.nan()
            &&& params.absolute_gap_limit->0.scaled() <= wider.absolute_gap_limit->0.scaled()
        },
        params.relative_gap_limit is Some ==> {
            &&& wider.relative_gap_limit is Some
            &&& !wider.relative_gap_limit->0.nan()
            &&& params.relative_gap_limit->0.scaled() <= wider.relative_gap_limit->0.scaled()
        },
    ensures
        crate::status::gap_reached(response, wider),
{
}

/// Whether a response holds a solution that is not known to be the best one.
pub open spec fn unproved(response: CpSolverResponse) -> bool {
    ||| response.status == CpSolverStatus::Feasible
    ||| response.status == CpSolverStatus::Unknown && response.solution@.len() > 0
}

/// Whether a response says that nothing was found.
pub open spec fn fruitless(response: CpSolverResponse) -> bool {
    response.status == CpSolverStatus::Unknown && response.solution@.len() == 0
}

/// Whether a limit on time is set.
pub open spec fn timed(params: SatParameters) -> bool {
    params.max_time_in_seconds is Some || params.max_deterministic_time is Some
}

/// What becomes of a response, for each of the things that can become of it. What the solver has
/// proved comes out as it is: that there is no solution, that the model is invalid, and that a
/// solution is the best one unless a gap limit was reached. A solution that is not known to be the
/// best one is put down to a gap limit, else to a time limit, else it is an error.
pub proof fn law_outcome(response: CpSolverResponse, params: SatParameters)
    ensures
        ({
            let outcome = crate::status::outcome_of(response, params);
            let gap = crate::status::gap_reached(response, params);
            let optimal = response.status == CpSolverStatus::Optimal;
            &&& outcome == OutcomeView::Failed(ErrorView::Infeasible) <==> response.status
                == CpSolverStatus::Infeasible
            &&& outcome == OutcomeView::Refused <==> response.status
                == CpSolverStatus::ModelInvalid
            &&& outcome == OutcomeView::Solved(SolutionStatus::Optimal) <==> optimal && !gap
            &&& outcome == OutcomeView::Solved(SolutionStatus::GapLimit) <==> (optimal
                || unproved(response)) && gap
            &&& outcome == OutcomeView::Solved(SolutionStatus::TimeLimit) <==> unproved(response)
                && !gap && timed(params)
            &&& outcome is Failed && outcome->Failed_0 is Str <==> unproved(response) && !gap
                && !timed(params)
            &&& unproved(response) && !gap && !timed(params) ==> outcome == OutcomeView::Failed(
                crate::status::no_status(response.solution_info@),
            )
            &&& outcome is Failed && outcome->Failed_0 is Other <==> fruitless(response)
            &&& fruitless(response) && timed(params) ==> outcome == OutcomeView::Failed(
                ErrorView::Other("Time limit reached without finding a feasible solution"@),
            )
            &&& fruitless(response) && !timed(params) ==> outcome == OutcomeView::Failed(
                ErrorView::Other(
                    "Unknown solver status: search limit reached or other interruption"@,
                ),
            )
            &&& outcome != OutcomeView::Failed(ErrorView::Unbounded)
        }),
{
}

/// The status of a solution that is not known to be the best one, or the error in its place.
pub proof fn law_non_optimal_status(response: CpSolverResponse, params: SatParameters)
    ensures
        ({
            let status = crate::status::non_optimal_status(response, params);
            let gap = crate::status::gap_reached(response, params);
            &&& status == Ok::<SolutionStatus, ErrorView>(SolutionStatus::GapLimit) <==> gap
            &&& status == Ok::<SolutionStatus, ErrorView>(SolutionStatus::TimeLimit) <==> !gap
                && timed(params)
            &&& !gap && !timed(params) ==> status == Err::<SolutionStatus, ErrorView>(
                crate::status::no_status(response.solution_info@),
            )
        }),
{
}

/// What a problem answers to a response: a solution that holds the response and its own variables,
/// the error that the response stands for, or why the model was refused.
pub proof fn law_answer<V: FnOnce(&CpModelBuilder) -> String>(
    solved: ProblemView,
    model: CpModelBuilder,
    response: CpSolverResponse,
    validate: V,
    result: Result<CpSatSolution, ResolutionError>,
)
    requires
        solved.state is Valid,
        solved.answers(model, response, validate, result),
    ensures
        ({
            let gap = crate::status::gap_reached(response, solved.params);
            let optimal = response.status == CpSolverStatus::Optimal;
            let limited = gap || timed(solved.params);
            &&& result is Ok <==> optimal || (unproved(response) && limited)
            &&& result is Ok ==> {
                let solution = result->Ok_0@;
                &&& solution.response == response
                &&& solution.vars == solved.state->vars
                &&& solution.status == SolutionStatus::Optimal <==> optimal && !gap
                &&& solution.status == SolutionStatus::GapLimit <==> gap
                &&& solution.status == SolutionStatus::TimeLimit <==> !optimal && !gap
            }
            &&& result is Err && result->Err_0@ == ErrorView::Infeasible <==> response.status
                == CpSolverStatus::Infeasible
            &&& result is Err && result->Err_0@ is Other <==> fruitless(response)
            &&& fruitless(response) && timed(solved.params) ==> result->Err_0@
                == ErrorView::Other("Time limit reached without finding a feasible solution"@)
            &&& fruitless(response) && !timed(solved.params) ==> result->Err_0@
                == ErrorView::Other(
                "Unknown solver status: search limit reached or other interruption"@,
            )
            &&& unproved(response) && !limited ==> result is Err && result->Err_0@
                == crate::status::no_status(response.solution_info@)
            &&& response.status == CpSolverStatus::ModelInvalid ==> result is Err && exists|
                validation: String,
            |
                #[trigger] call_ensures(validate, (&model,), validation) && result->Err_0@
                    == crate::bridge::refused(validation@)
        }),
{
    law_outcome(response, solved.params);
}

/// The value of a variable is the number nearest to the integer at its position in the response.
pub proof fn law_value_is_at_its_position<V: FnOnce(&CpModelBuilder) -> String>(
    solved: ProblemView,
    model: CpModelBuilder,
    response: CpSolverResponse,
    validate: V,
    result: Result<CpSatSolution, ResolutionError>,
    variable: Variable,
)
    requires
        solved.wf(),
        solved.state is Valid,
        solved.answers(model, response, validate, result),
        result is Ok,
        variable.index < solved.state->model.variables.len(),
        variable.index < response.solution@.len(),
    ensures
        ({
            let n = response.solution@[variable.index as int];
            let value = result->Ok_0@.value_of(variable);
            &&& result->Ok_0@.has_value(variable)
            &&& value.finite()
            &&& value.negative() == (n < 0)
            &&& Format::binary64().rounds_to(
                crate::arithmetic::absolute(n as int) * Float64::one(),
                1,
                value.magnitude(),
            )
        }),
{
    law_answer(solved, model, response, validate, result);
    crate::laws::law_variables_keep_their_positions(solved, variable);
    crate::laws::numbers::law_of_integer(response.solution@[variable.index as int]);
}

/// That no assignment satisfies a problem is answered only where the solver said it of the model,
/// and then, if the solver is right, of the problem as it was stated. A problem in error never gets
/// that answer.
pub proof fn law_infeasible_answer<V: FnOnce(&CpModelBuilder) -> String>(
    solved: ProblemView,
    problem: UnsolvedProblem,
    constraints: Seq<Constraint>,
    model: CpModelBuilder,
    response: CpSolverResponse,
    validate: V,
    result: Result<CpSatSolution, ResolutionError>,
    assignment: Seq<int>,
)
    requires
        crate::laws::states(solved, problem, constraints),
        solved.state is Invalid ==> result is Err && result->Err_0@ == solved.state->reason,
        solved.state is Valid ==> solved.answers(model, response, validate, result),
        solved.state is Valid && response.status == CpSolverStatus::Infeasible
            ==> !solved.state->model.feasible(assignment),
        result is Err,
        result->Err_0@ == ErrorView::Infeasible,
    ensures
        solved.state is Valid,
        response.status == CpSolverStatus::Infeasible,
        !crate::laws::satisfies(problem, constraints, assignment),
{
    crate::laws::conversion::law_error_is_a_message(problem, constraints);
    let stated = crate::laws::with_constraints(crate::bridge::converted(problem), constraints);
    assert(solved.state is Invalid ==> stated.state == solved.state);
    law_answer(solved, model, response, validate, result);
    crate::laws::law_infeasible_is_about_the_problem(
        solved,
        problem,
        constraints,
        model,
        response,
        validate,
        result,
        assignment,
    );
}

} // verus!
