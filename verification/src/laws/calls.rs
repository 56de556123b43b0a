//! What holds of calls: what a function returns or changes, in terms of what it is given, and how
//! calls relate.
use vstd::prelude::*;
use crate::arithmetic::divide;
use crate::bridge::{cp_sat, CpSatProblem, CpSatSolution, ProblemState, ProblemView};
use crate::convert::{create_cp_sat_var, expr_from_constraint_expression, integer_bound,
    validate_gap, verify_integer};
use crate::error::{Message, MipGapError, ResolutionError};
use crate::float::{Float32, Float64, INFINITY32, INFINITY64, SIGN64};
use crate::format::Format;
use crate::model::{CpModelBuilder, IntVar, LinearExpr, Relation};
use crate::problem::{Constraint, ConstraintReference, Expression, UnsolvedProblem, Variable,
    VariableDefinition};
use crate::solver::{CpSolverResponse, CpSolverSolution, CpSolverStatus, SatParameters};
use crate::status::{gap_limit_reached, interpret, non_optimal_solution_status, Outcome,
    SolutionStatus};

verus! {

/// A number converts to the integer that it is, if that has 64 bits, and to nothing otherwise.
pub proof fn law_verify_integer(x: Float64, result: Result<i64, ResolutionError>)
    requires
        call_ensures(verify_integer, (x,), result),
    ensures
        result is Ok <==> crate::laws::numbers::whole(x),
        result is Ok ==> crate::laws::numbers::stands_for(x, result->Ok_0 as int),
        !x.finite() ==> result is Err && result->Err_0@ == crate::convert::not_finite(x),
        x.finite() && !x.integral() ==> result is Err && result->Err_0@
            == crate::convert::not_an_integer(x),
        x.integral() && !crate::laws::numbers::whole(x) ==> result is Err && result->Err_0@
            == crate::convert::out_of_range(x),
{
    crate::laws::conversion::law_number_conversion(x);
    crate::laws::numbers::law_integral(x);
}

/// A bound converts to the nearest integer within it, if that has 64 bits.
pub proof fn law_integer_bound(
    x: Float64,
    n: int,
    lower: Result<i64, ResolutionError>,
    upper: Result<i64, ResolutionError>,
)
    requires
        call_ensures(integer_bound, (x, true), lower),
        call_ensures(integer_bound, (x, false), upper),
    ensures
        lower is Ok ==> crate::laws::numbers::least_above(x, lower->Ok_0 as int),
        upper is Ok ==> crate::laws::numbers::greatest_below(x, upper->Ok_0 as int),
        crate::laws::numbers::least_above(x, n) ==> (lower is Ok <==> i64::MIN <= n <= i64::MAX),
        crate::laws::numbers::greatest_below(x, n) ==> (upper is Ok <==> i64::MIN <= n <= i64::MAX),
        x.finite() && lower is Err ==> lower->Err_0@ == crate::convert::out_of_range(x),
        x.finite() && upper is Err ==> upper->Err_0@ == crate::convert::out_of_range(x),
        !x.finite() ==> lower is Err && lower->Err_0@ == crate::convert::bound_not_finite(x),
        !x.finite() ==> upper is Err && upper->Err_0@ == crate::convert::bound_not_finite(x),
{
    crate::laws::conversion::law_bound_conversion(x, n);
    if x.finite() {
        crate::laws::conversion::law_bounds_exist(x);
        let a = choose|a: int| #[trigger] crate::laws::numbers::least_above(x, a);
        let b = choose|b: int| #[trigger] crate::laws::numbers::greatest_below(x, b);
        crate::laws::conversion::law_bound_conversion(x, a);
        crate::laws::conversion::law_bound_conversion(x, b);
    }
}

/// A gap tolerance is accepted where it has no sign and is finite.
pub proof fn law_validate_gap(gap: Float64, result: Result<(), MipGapError>)
    requires
        call_ensures(validate_gap, (gap,), result),
    ensures
        result is Ok <==> gap.bits < INFINITY64,
        result == Err::<(), MipGapError>(MipGapError::Negative) <==> gap.bits >= SIGN64,
{
    crate::laws::conversion::law_gap_tolerance(gap);
}

/// The terms of an expression convert where they all can, without those of coefficient zero.
pub proof fn law_expr_from_constraint_expression(
    vars: &Vec<IntVar>,
    expression: &Expression,
    result: Result<LinearExpr, ResolutionError>,
)
    requires
        call_ensures(expr_from_constraint_expression, (vars, expression), result),
    ensures
        ({
            let terms = expression.linear.coefficients@;
            &&& result is Ok <==> crate::laws::conversion::all_whole(terms)
            &&& result is Ok ==> result->Ok_0.constant == 0 && result->Ok_0.terms@ == terms.filter(
                crate::laws::conversion::nonzero_terms(),
            ).map_values(crate::laws::conversion::as_term(vars@))
            &&& forall|i: int| #[trigger]
                crate::laws::conversion::first_broken(terms, i) ==> result is Err
                    && result->Err_0@ == crate::convert::integer_of(terms[i].1)->Err_0
        }),
{
    crate::laws::conversion::law_terms_conversion(vars@, expression.linear.coefficients@);
}

/// A definition declares a variable of its name, with the integers within its bounds, where there
/// are any of 64 bits. Otherwise the model stays as it is.
pub proof fn law_create_cp_sat_var(
    model: &mut CpModelBuilder,
    def: &VariableDefinition,
    var: Variable,
    result: Result<IntVar, ResolutionError>,
)
    requires
        call_ensures(create_cp_sat_var, (model, def, var), result),
    ensures
        result is Ok <==> crate::laws::conversion::has_domain(*def),
        result is Ok ==> {
            let added = final(model)@.variables.last();
            &&& result->Ok_0.index == old(model)@.variables.len()
            &&& final(model)@.variables.len() == old(model)@.variables.len() + 1
            &&& final(model)@.variables.drop_last() == old(model)@.variables
            &&& added.name == def.name@
            &&& crate::laws::numbers::least_above(def.min, added.lower as int)
            &&& crate::laws::numbers::greatest_below(def.max, added.upper as int)
            &&& final(model)@.objective == old(model)@.objective
            &&& final(model)@.constraints == old(model)@.constraints
            &&& final(model)@.hints == old(model)@.hints
        },
        result is Err ==> *final(model) == *old(model),
        result is Err ==> result->Err_0@ == crate::convert::domain_of(
            *def,
            var.index as nat,
        )->Err_0,
{
    crate::laws::conversion::law_definition_conversion(*def, var.index as nat);
    if result is Ok {
        assert(final(model)@.variables.drop_last() =~= old(model)@.variables);
    }
}

/// A problem is accepted exactly where it can be converted; then its model says what the problem
/// says. Nothing else is set.
pub proof fn law_cp_sat(problem: UnsolvedProblem, result: CpSatProblem)
    requires
        call_ensures(cp_sat, (problem,), result),
        problem.variables@.len() <= usize::MAX,
        crate::convert::terms_known(
            problem.variables@.len(),
            problem.objective.linear.coefficients@,
            true,
        ),
    ensures
        ({
            let defs = problem.variables@;
            let model = result@.state->model;
            let expr = model.objective->0.expr;
            &&& result@.wf()
            &&& result@.next_index() == 0
            &&& result@.params == SatParameters::unset()
            &&& result@.state is Valid <==> crate::laws::conversion::convertible(problem)
            &&& result@.state is Invalid ==> result@.state->reason is Str
            &&& result@.state is Valid ==> {
                &&& model.variables.len() == defs.len()
                &&& forall|i: int|
                    0 <= i < defs.len() ==> {
                        &&& (#[trigger] model.variables[i]).name == defs[i].name@
                        &&& crate::laws::numbers::least_above(
                            defs[i].min,
                            model.variables[i].lower as int,
                        )
                        &&& crate::laws::numbers::greatest_below(
                            defs[i].max,
                            model.variables[i].upper as int,
                        )
                    }
                &&& model.objective is Some
                &&& model.objective->0.direction == problem.direction
                &&& expr.terms == problem.objective.linear.coefficients@.map_values(
                    crate::laws::conversion::as_placed_term(),
                )
                &&& crate::laws::numbers::stands_for(
                    problem.objective.constant,
                    expr.constant as int,
                )
                &&& model.constraints.len() == 0
                &&& model.hints == crate::laws::conversion::placed(defs).filter(
                    crate::laws::conversion::with_whole_initial(),
                ).map_values(crate::laws::conversion::as_initial_hint())
            }
        }),
{
    crate::laws::conversion::law_problem_acceptance(problem);
    crate::laws::conversion::law_error_is_a_message(problem, Seq::empty());
    if crate::laws::conversion::convertible(problem) {
        crate::laws::conversion::law_problem_conversion(problem);
    }
}

/// A constraint gets the next reference. A valid problem stays valid exactly where the constraint
/// can be converted, and then has it last; what was there stays. A problem in error keeps its error.
pub proof fn law_add_constraint(
    problem: &mut CpSatProblem,
    constraint: Constraint,
    reference: ConstraintReference,
)
    requires
        call_ensures(CpSatProblem::add_constraint, (problem, constraint), reference),
        old(problem)@.wf(),
        old(problem)@.next_index() < usize::MAX,
        old(problem)@.state is Valid ==> crate::convert::constraint_known(
            old(problem)@.state->vars.len(),
            constraint,
        ),
    ensures
        ({
            let before = old(problem)@.state->model;
            let after = final(problem)@.state->model;
            let added = after.constraints.last();
            let terms = constraint.expression.linear.coefficients@;
            &&& reference.index == old(problem)@.next_index()
            &&& final(problem)@.next_index() == reference.index + 1
            &&& final(problem)@.params == old(problem)@.params
            &&& final(problem)@.wf()
            &&& final(problem)@.state is Valid <==> old(problem)@.state is Valid
                && crate::laws::conversion::convertible_constraint(constraint)
            &&& old(problem)@.state is Invalid ==> final(problem)@.state->reason
                == old(problem)@.state->reason
            &&& final(problem)@.state is Valid ==> {
                &&& final(problem)@.state->vars == old(problem)@.state->vars
                &&& after.variables == before.variables
                &&& after.objective == before.objective
                &&& after.hints == before.hints
                &&& after.constraints.drop_last() == before.constraints
                &&& added.relation == Relation::Equal <==> constraint.is_equality
                &&& constraint.expression.constant.scaled() == -(added.bound * Float64::one())
                &&& added.expr.constant == 0
                &&& added.expr.terms == terms.filter(
                    crate::laws::conversion::nonzero_terms(),
                ).map_values(crate::laws::conversion::as_placed_term())
            }
        }),
{
    if old(problem)@.state is Valid {
        crate::laws::conversion::law_constraint_conversion(old(problem)@, constraint);
        if !crate::laws::conversion::convertible_constraint(constraint) {
            crate::laws::conversion::law_constraint_error(old(problem)@, constraint);
        }
    } else {
        crate::laws::conversion::law_constraint_in_error(old(problem)@, constraint);
    }
}

/// Values that are integers of 64 bits become hints, behind those that were there.
pub proof fn law_with_initial_solution(
    problem: CpSatProblem,
    values: Vec<(Variable, Float64)>,
    result: CpSatProblem,
)
    requires
        call_ensures(CpSatProblem::with_initial_solution, (problem, values), result),
        problem@.wf(),
        problem@.state is Valid ==> crate::convert::hints_known(
            problem@.state->vars.len(),
            values@,
        ),
    ensures
        result@.params == problem@.params,
        problem@.state is Invalid ==> result@ == problem@,
        problem@.state is Valid ==> {
            let before = problem@.state->model;
            let after = result@.state->model;
            &&& result@.state is Valid
            &&& result@.state->vars == problem@.state->vars
            &&& after.variables == before.variables
            &&& after.objective == before.objective
            &&& after.constraints == before.constraints
            &&& after.hints == before.hints + values@.filter(
                crate::laws::conversion::whole_values(),
            ).map_values(crate::laws::conversion::as_placed_hint())
        },
{
    if problem@.state is Valid {
        crate::laws::conversion::law_hints_are_added(problem@, values@);
    }
}

/// Clearing hints leaves none, and everything else as it was.
pub proof fn law_clear_hints(problem: &mut CpSatProblem)
    requires
        call_ensures(CpSatProblem::clear_hints, (problem,), ()),
    ensures
        final(problem)@.params == old(problem)@.params,
        old(problem)@.state is Invalid ==> final(problem)@ == old(problem)@,
        old(problem)@.state is Valid ==> {
            let before = old(problem)@.state->model;
            let after = final(problem)@.state->model;
            &&& final(problem)@.state is Valid
            &&& final(problem)@.state->vars == old(problem)@.state->vars
            &&& after.variables == before.variables
            &&& after.objective == before.objective
            &&& after.constraints == before.constraints
            &&& after.hints.len() == 0
        },
{
}

/// The model can be inspected where the problem is valid, and holds what the problem holds.
pub proof fn law_as_inner(problem: CpSatProblem, model: Option<&CpModelBuilder>)
    requires
        call_ensures(CpSatProblem::as_inner, (&problem,), model),
    ensures
        model is Some <==> problem@.state is Valid,
        model is Some ==> {
            let stated = problem@.state->model;
            &&& model->0.hints@ == stated.hints
            &&& model->0.variables@.len() == stated.variables.len()
            &&& forall|i: int|
                0 <= i < stated.variables.len() ==> {
                    &&& (#[trigger] model->0.variables@[i]).name@ == stated.variables[i].name
                    &&& model->0.variables@[i].lower == stated.variables[i].lower
                    &&& model->0.variables@[i].upper == stated.variables[i].upper
                }
            &&& model->0.objective is Some <==> stated.objective is Some
            &&& stated.objective is Some ==> {
                &&& model->0.objective->0.direction == stated.objective->0.direction
                &&& model->0.objective->0.expr.terms@ == stated.objective->0.expr.terms
                &&& model->0.objective->0.expr.constant == stated.objective->0.expr.constant
            }
            &&& model->0.constraints@.len() == stated.constraints.len()
            &&& forall|i: int|
                0 <= i < stated.constraints.len() ==> {
                    &&& (#[trigger] model->0.constraints@[i]).relation
                        == stated.constraints[i].relation
                    &&& model->0.constraints@[i].bound == stated.constraints[i].bound
                    &&& model->0.constraints@[i].expr.terms@ == stated.constraints[i].expr.terms
                    &&& model->0.constraints@[i].expr.constant == stated.constraints[i].expr.constant
                }
        },
{
    if model is Some {
        let stated = problem@.state->model;
        assert forall|i: int| 0 <= i < stated.variables.len() implies {
            &&& (#[trigger] model->0.variables@[i]).name@ == stated.variables[i].name
            &&& model->0.variables@[i].lower == stated.variables[i].lower
            &&& model->0.variables@[i].upper == stated.variables[i].upper
        } by {
            assert(model->0@.variables[i] == model->0.variables@[i]@);
        }
        assert forall|i: int| 0 <= i < stated.constraints.len() implies {
            &&& (#[trigger] model->0.constraints@[i]).relation == stated.constraints[i].relation
            &&& model->0.constraints@[i].bound == stated.constraints[i].bound
            &&& model->0.constraints@[i].expr.terms@ == stated.constraints[i].expr.terms
            &&& model->0.constraints@[i].expr.constant == stated.constraints[i].expr.constant
        } by {
            assert(model->0@.constraints[i] == model->0.constraints@[i]@);
        }
    }
}

/// Each setter sets its parameter, to the value that it is given, and no other. None touches the
/// state of the problem.
pub proof fn law_setters(
    problem: CpSatProblem,
    flag: bool,
    number: i32,
    seconds: Float64,
    verbose: CpSatProblem,
    workers: CpSatProblem,
    seeded: CpSatProblem,
    filled: CpSatProblem,
    timed: CpSatProblem,
)
    requires
        call_ensures(CpSatProblem::set_verbose, (problem, flag), verbose),
        call_ensures(CpSatProblem::set_num_search_workers, (problem, number), workers),
        call_ensures(CpSatProblem::set_random_seed, (problem, number), seeded),
        call_ensures(CpSatProblem::set_fill_additional_solutions, (problem, flag), filled),
        call_ensures(CpSatProblem::with_time_limit, (problem, seconds), timed),
    ensures
        verbose@ == (ProblemView {
            params: SatParameters { log_search_progress: Some(flag), ..problem@.params },
            ..problem@
        }),
        workers@ == (ProblemView {
            params: SatParameters { num_search_workers: Some(number), ..problem@.params },
            ..problem@
        }),
        seeded@ == (ProblemView {
            params: SatParameters { random_seed: Some(number), ..problem@.params },
            ..problem@
        }),
        filled@ == (ProblemView {
            params: SatParameters {
                fill_additional_solutions_in_response: Some(flag),
                ..problem@.params
            },
            ..problem@
        }),
        timed@ == (ProblemView {
            params: SatParameters { max_time_in_seconds: Some(seconds), ..problem@.params },
            ..problem@
        }),
{
}

/// Logging to the response turns logging on; not logging there leaves logging as it was.
pub proof fn law_set_log_to_response(problem: CpSatProblem, log: bool, result: CpSatProblem)
    requires
        call_ensures(CpSatProblem::set_log_to_response, (problem, log), result),
    ensures
        result@.state == problem@.state,
        result@.params.log_to_response == Some(log),
        log ==> result@.params.log_search_progress == Some(true),
        !log ==> result@.params.log_search_progress == problem@.params.log_search_progress,
        result@.params == (SatParameters {
            log_to_response: result@.params.log_to_response,
            log_search_progress: result@.params.log_search_progress,
            ..problem@.params
        }),
{
}

/// An absolute gap tolerance is set as it is where it is accepted.
pub proof fn law_set_mip_abs_gap(
    problem: CpSatProblem,
    gap: Float64,
    result: Result<CpSatProblem, MipGapError>,
)
    requires
        call_ensures(CpSatProblem::set_mip_abs_gap, (problem, gap), result),
    ensures
        result is Ok <==> gap.bits < INFINITY64,
        result is Err ==> (result->Err_0 == MipGapError::Negative <==> gap.bits >= SIGN64),
        result is Ok ==> result->Ok_0@ == (ProblemView {
            params: SatParameters { absolute_gap_limit: Some(gap), ..problem@.params },
            ..problem@
        }),
{
    crate::laws::conversion::law_gap_tolerance(gap);
}

/// A relative gap tolerance that is accepted is set to the same number in 64 bits, and reads back.
pub proof fn law_with_mip_gap(
    problem: CpSatProblem,
    gap: Float32,
    result: Result<CpSatProblem, MipGapError>,
    read: Option<Float32>,
)
    requires
        call_ensures(CpSatProblem::with_mip_gap, (problem, gap), result),
        result is Ok ==> call_ensures(CpSatProblem::mip_gap, (&result->Ok_0,), read),
    ensures
        result is Ok <==> gap.bits < INFINITY32,
        result is Err ==> (result->Err_0 == MipGapError::Negative <==> gap.negative()),
        result is Ok ==> read == Some(gap),
        result is Ok ==> {
            let set = result->Ok_0@.params.relative_gap_limit;
            &&& set is Some
            &&& set->0.finite()
            &&& set->0.scaled() == Format::binary32().units(gap.magnitude())
                * vstd::arithmetic::power2::pow2(925)
            &&& result->Ok_0@ == (ProblemView {
                params: SatParameters { relative_gap_limit: set, ..problem@.params },
                ..problem@
            })
        },
{
    crate::laws::law_gap_check_widens(gap);
    crate::laws::numbers::law_widened(gap);
    crate::laws::conversion::law_gap_tolerance(gap.widened());
    if result is Ok {
        crate::laws::law_mip_gap_reads_back(gap);
    }
}

/// The relative gap tolerance reads as the nearest 32-bit number, where it is set.
pub proof fn law_mip_gap(problem: CpSatProblem, gap: Option<Float32>)
    requires
        call_ensures(CpSatProblem::mip_gap, (&problem,), gap),
    ensures
        gap is Some <==> problem@.params.relative_gap_limit is Some,
        gap is Some ==> {
            let limit = problem@.params.relative_gap_limit->0;
            &&& gap->0.negative() == limit.negative()
            &&& gap->0.nan() == limit.nan()
            &&& limit.finite() ==> Format::binary32().rounds_to(
                Format::binary64().units(limit.magnitude()),
                vstd::arithmetic::power2::pow2(925),
                gap->0.magnitude(),
            )
        },
{
    if problem@.params.relative_gap_limit is Some {
        crate::laws::numbers::law_narrowed(problem@.params.relative_gap_limit->0);
    }
}

/// The parameters can be read, and changing them changes nothing else.
pub proof fn law_params(
    problem: CpSatProblem,
    read: &SatParameters,
    changed: &mut CpSatProblem,
    params: &mut SatParameters,
)
    requires
        call_ensures(CpSatProblem::params, (&problem,), read),
        call_ensures(CpSatProblem::params_mut, (changed,), params),
    ensures
        *read == problem@.params,
        *old(params) == old(changed)@.params,
        final(changed)@.params == *final(params),
        final(changed)@.state == old(changed)@.state,
{
}

/// Whether a gap limit is reached, between finite numbers and others.
pub proof fn law_gap_limit_reached(
    response: CpSolverResponse,
    params: SatParameters,
    gap: nat,
    relative: nat,
    reached: bool,
)
    requires
        call_ensures(gap_limit_reached, (&response, &params), reached),
        response.objective_value.finite(),
        response.best_objective_bound.finite(),
        Format::binary64().rounds_to(
            crate::arithmetic::absolute(
                response.objective_value.scaled() - response.best_objective_bound.scaled(),
            ),
            1,
            gap,
        ),
        gap == INFINITY64 ==> relative == INFINITY64,
        gap < INFINITY64 ==> Format::binary64().rounds_to(
            Format::binary64().units(gap) * Float64::one(),
            if Format::binary64().units(response.objective_value.magnitude()) > Float64::one() {
                Format::binary64().units(response.objective_value.magnitude())
            } else {
                Float64::one()
            },
            relative,
        ),
    ensures
        reached <==> {
            &&& response.objective_value.scaled() != response.best_objective_bound.scaled()
            &&& {
                ||| crate::laws::responses::within(
                    params.absolute_gap_limit,
                    Format::binary64().units(gap),
                )
                ||| crate::laws::responses::within(
                    params.relative_gap_limit,
                    Format::binary64().units(relative),
                )
            }
        },
{
    crate::laws::responses::law_gap_of_finite_numbers(response, params, gap, relative);
}

/// Two calls on the same four numbers agree, and so do the statuses that depend on them.
pub proof fn law_gap_calls_agree(
    response: CpSolverResponse,
    params: SatParameters,
    reached: bool,
    other_response: CpSolverResponse,
    other_params: SatParameters,
    other_reached: bool,
)
    requires
        call_ensures(gap_limit_reached, (&response, &params), reached),
        call_ensures(gap_limit_reached, (&other_response, &other_params), other_reached),
        response.objective_value == other_response.objective_value,
        response.best_objective_bound == other_response.best_objective_bound,
        params.absolute_gap_limit == other_params.absolute_gap_limit,
        params.relative_gap_limit == other_params.relative_gap_limit,
    ensures
        reached == other_reached,
{
    crate::laws::responses::law_gap_depends_on_four_numbers(
        response,
        params,
        other_response,
        other_params,
    );
}

/// A solution that is not known to be the best one is put down to the gap limit if that is reached,
/// else to a time limit if one is set, and is an error otherwise.
pub proof fn law_non_optimal_solution_status(
    response: CpSolverResponse,
    params: SatParameters,
    reached: bool,
    result: Result<SolutionStatus, ResolutionError>,
)
    requires
        call_ensures(gap_limit_reached, (&response, &params), reached),
        call_ensures(non_optimal_solution_status, (&response, &params), result),
    ensures
        result is Ok <==> reached || crate::laws::responses::timed(params),
        result is Ok ==> result->Ok_0 == if reached {
            SolutionStatus::GapLimit
        } else {
            SolutionStatus::TimeLimit
        },
        result is Err ==> result->Err_0@ == crate::status::no_status(response.solution_info@),
{
    crate::laws::responses::law_non_optimal_status(response, params);
}

/// What becomes of a response, given whether a gap limit is reached.
pub proof fn law_interpret(
    response: CpSolverResponse,
    params: SatParameters,
    gap: bool,
    outcome: Outcome,
)
    requires
        call_ensures(gap_limit_reached, (&response, &params), gap),
        call_ensures(interpret, (&response, &params), outcome),
    ensures
        ({
            let optimal = response.status == CpSolverStatus::Optimal;
            let unproved = crate::laws::responses::unproved(response);
            let timed = crate::laws::responses::timed(params);
            &&& outcome is Refused <==> response.status == CpSolverStatus::ModelInvalid
            &&& outcome is Solved <==> optimal || (unproved && (gap || timed))
            &&& outcome is Solved ==> (outcome->Solved_0 == SolutionStatus::Optimal <==> optimal
                && !gap)
            &&& outcome is Solved ==> (outcome->Solved_0 == SolutionStatus::GapLimit <==> gap)
            &&& outcome is Failed && outcome->Failed_0 is Infeasible <==> response.status
                == CpSolverStatus::Infeasible
            &&& outcome is Failed && outcome->Failed_0 is Other
                <==> crate::laws::responses::fruitless(response)
            &&& outcome is Failed && outcome->Failed_0 is Str <==> unproved && !gap && !timed
            &&& outcome is Failed && outcome->Failed_0 is Other ==> outcome->Failed_0->Other_0@
                == if timed {
                "Time limit reached without finding a feasible solution"@
            } else {
                "Unknown solver status: search limit reached or other interruption"@
            }
            &&& outcome is Failed && outcome->Failed_0 is Str ==> outcome->Failed_0@
                == crate::status::no_status(response.solution_info@)
        }),
{
    crate::laws::responses::law_outcome(response, params);
}

/// A problem in error gives its error. Otherwise the engine is run on the model and the parameters
/// of the problem, and the answer is what its response stands for.
pub proof fn law_solve<
    E: FnOnce(&CpModelBuilder, &SatParameters) -> CpSolverResponse,
    V: FnOnce(&CpModelBuilder) -> String,
>(
    problem: CpSatProblem,
    engine: E,
    validate: V,
    result: Result<CpSatSolution, ResolutionError>,
)
    requires
        call_ensures(CpSatProblem::solve::<E, V>, (problem, engine, validate), result),
    ensures
        problem@.state is Invalid ==> result is Err && result->Err_0@ == problem@.state->reason,
        problem@.state is Valid ==> exists|model: CpModelBuilder, response: CpSolverResponse|
            {
                &&& #[trigger] call_ensures(engine, (&model, &problem@.params), response)
                &&& model@ == problem@.state->model
                &&& result is Ok ==> result->Ok_0@.response == response && result->Ok_0@.vars
                    == problem@.state->vars
                &&& result is Ok ==> (result->Ok_0@.status == SolutionStatus::Optimal
                    <==> response.status == CpSolverStatus::Optimal && !crate::status::gap_reached(
                    response,
                    problem@.params,
                ))
                &&& result is Ok ==> (result->Ok_0@.status == SolutionStatus::GapLimit
                    <==> crate::status::gap_reached(response, problem@.params))
                &&& result is Ok <==> response.status == CpSolverStatus::Optimal || (
                crate::laws::responses::unproved(response) && (crate::status::gap_reached(
                    response,
                    problem@.params,
                ) || crate::laws::responses::timed(problem@.params)))
                &&& result is Err && result->Err_0 is Infeasible <==> response.status
                    == CpSolverStatus::Infeasible
                &&& result is Err && result->Err_0 is Other
                    <==> crate::laws::responses::fruitless(response)
                &&& response.status == CpSolverStatus::ModelInvalid ==> exists|validation: String|
                    #[trigger] call_ensures(validate, (&model,), validation) && result->Err_0@
                        == crate::bridge::refused(validation@)
            },
{
    if problem@.state is Valid {
        let (model, response) = choose|model: CpModelBuilder, response: CpSolverResponse|
            {
                &&& model@ == problem@.state->model
                &&& call_ensures(engine, (&model, &problem@.params), response)
                &&& #[trigger] problem@.answers(model, response, validate, result)
            };
        crate::laws::responses::law_answer(problem@, model, response, validate, result);
        assert(call_ensures(engine, (&model, &problem@.params), response));
    }
}

/// Statistics are those that the given function writes: of the model, where there is one, and of the
/// response, for a problem with an objective.
pub proof fn law_stats<
    S: FnOnce(&CpModelBuilder) -> String,
    T: FnOnce(&CpSolverResponse, bool) -> String,
>(
    problem: CpSatProblem,
    stats: S,
    text: Option<String>,
    solution: CpSatSolution,
    response_stats: T,
    response_text: String,
)
    requires
        call_ensures(CpSatProblem::model_stats::<S>, (&problem, stats), text),
        call_ensures(
            CpSatSolution::response_stats::<T>,
            (&solution, response_stats),
            response_text,
        ),
    ensures
        text is Some <==> problem@.state is Valid,
        text is Some ==> exists|model: CpModelBuilder|
            #![trigger model@]
            model@ == problem@.state->model && call_ensures(stats, (&model,), text->0),
        call_ensures(response_stats, (&solution@.response, true), response_text),
{
}

/// Putting a state in error a second time changes nothing.
pub proof fn law_into_invalid(
    state: &mut ProblemState,
    reason: ResolutionError,
    index: usize,
    again: &mut ProblemState,
    later_reason: ResolutionError,
    later_index: usize,
)
    requires
        call_ensures(ProblemState::into_invalid, (state, reason, index), ()),
        *old(again) == *final(state),
        call_ensures(ProblemState::into_invalid, (again, later_reason, later_index), ()),
    ensures
        *old(state) is Valid ==> *final(state) == (ProblemState::Invalid {
            reason,
            next_constraint_index: index,
        }),
        *old(state) is Invalid ==> *final(state) == *old(state),
        *final(again) == *final(state),
{
}

/// What a solution holds can be read.
pub proof fn law_solution(
    solution: CpSatSolution,
    response: &CpSolverResponse,
    owned: CpSolverResponse,
    log: &str,
    additional: &[CpSolverSolution],
    status: SolutionStatus,
)
    requires
        call_ensures(CpSatSolution::response, (&solution,), response),
        call_ensures(CpSatSolution::into_response, (solution,), owned),
        call_ensures(CpSatSolution::solution_log, (&solution,), log),
        call_ensures(CpSatSolution::additional_solutions, (&solution,), additional),
        call_ensures(CpSatSolution::status, (&solution,), status),
    ensures
        *response == solution@.response,
        owned == solution@.response,
        log@ == solution@.response.solve_log@,
        additional@ == solution@.response.additional_solutions@,
        status == solution@.status,
{
}

/// The value of a variable is the number nearest to the integer that the response holds for it.
pub proof fn law_value(solution: CpSatSolution, variable: Variable, value: Float64)
    requires
        call_ensures(CpSatSolution::value, (&solution, variable), value),
        solution@.has_value(variable),
    ensures
        ({
            let n = solution@.response.solution@[
                solution@.vars[variable.index as int].index as int
            ];
            &&& value.integral()
            &&& value.negative() == (n < 0)
            &&& Format::binary64().rounds_to(
                crate::arithmetic::absolute(n as int) * Float64::one(),
                1,
                value.magnitude(),
            )
            &&& Float64::holds_integer(n as int) ==> crate::laws::numbers::stands_for(
                value,
                n as int,
            )
        }),
{
    let n = solution@.integer_of(variable);
    crate::laws::numbers::law_of_integer(n);
    crate::laws::law_value_exact(n);
}

/// The name of the solver.
pub proof fn law_name(name: &'static str)
    requires
        call_ensures(CpSatProblem::name, (), name),
    ensures
        name@ == "CP-SAT"@,
{
}

/// The head of a message, then each number as it is shown, followed by its text.
pub open spec fn assembled(message: Message, shown: Seq<String>) -> Seq<char> {
    message.head@ + Seq::new(shown.len(), |i: int| shown[i]@ + message.tail@[i].1@).flatten()
}

/// A message is written as its head, then each number as it is shown, followed by its text.
pub proof fn law_render<F: Fn(Float64) -> String>(message: Message, show: F, text: String)
    requires
        call_ensures(Message::render::<F>, (&message, show), text),
    ensures
        exists|shown: Seq<String>|
            {
                &&& shown.len() == message.tail@.len()
                &&& forall|i: int|
                    0 <= i < shown.len() ==> call_ensures(
                        show,
                        (message.tail@[i].0,),
                        #[trigger] shown[i],
                    )
                &&& text@ == #[trigger] assembled(message, shown)
            },
{
    let shown = choose|shown: Seq<String>|
        {
            &&& shown.len() == message@.tail.len()
            &&& forall|i: int|
                0 <= i < shown.len() ==> call_ensures(
                    show,
                    (message@.tail[i].0,),
                    #[trigger] shown[i],
                )
            &&& text@ == #[trigger] message@.written(shown, shown.len())
        };
    crate::laws::messages::law_written_in_order(message@, shown);
    assert forall|i: int| 0 <= i < shown.len() implies call_ensures(
        show,
        (message.tail@[i].0,),
        #[trigger] shown[i],
    ) by {
        assert(message@.tail[i].0 == message.tail@[i].0);
    }
    assert(Seq::new(shown.len(), |i: int| shown[i]@ + message@.tail[i].1) =~= Seq::new(
        shown.len(),
        |i: int| shown[i]@ + message.tail@[i].1@,
    ));
    assert(text@ == assembled(message, shown));
}

/// Conversions between integers, 64-bit and 32-bit numbers give the nearest number.
pub proof fn law_number_conversions(
    n: i64,
    number: Float64,
    x: Float64,
    narrow: Float32,
    y: Float32,
    wide: Float64,
)
    requires
        call_ensures(Float64::from_i64, (n,), number),
        call_ensures(Float64::to_float32, (x,), narrow),
        call_ensures(Float32::to_float64, (y,), wide),
    ensures
        number.negative() == (n < 0),
        Format::binary64().rounds_to(
            crate::arithmetic::absolute(n as int) * Float64::one(),
            1,
            number.magnitude(),
        ),
        narrow.negative() == x.negative(),
        narrow.nan() == x.nan(),
        x.finite() ==> Format::binary32().rounds_to(
            Format::binary64().units(x.magnitude()),
            vstd::arithmetic::power2::pow2(925),
            narrow.magnitude(),
        ),
        wide.negative() == y.negative(),
        wide.nan() == y.nan(),
        wide.infinite() == y.infinite(),
        y.finite() ==> Format::binary64().units(wide.magnitude()) == Format::binary32().units(
            y.magnitude(),
        ) * vstd::arithmetic::power2::pow2(925),
{
    crate::laws::numbers::law_of_integer(n);
    crate::laws::numbers::law_narrowed(x);
    crate::laws::numbers::law_widened(y);
}

/// Distances and quotients are rounded to nearest, comparisons are exact.
pub proof fn law_number_arithmetic(
    a: Float64,
    b: Float64,
    distance: Option<u64>,
    dividend: u64,
    divisor: u64,
    quotient: Option<u64>,
    at_least: u64,
    magnitude: u64,
    not_below: bool,
)
    requires
        call_ensures(Float64::abs_difference, (a, b), distance),
        call_ensures(divide, (dividend, divisor), quotient),
        call_ensures(Float64::to_at_least_one, (a,), at_least),
        call_ensures(Float64::is_not_below, (a, magnitude), not_below),
        dividend <= INFINITY64,
        0 < divisor <= INFINITY64,
        magnitude <= INFINITY64,
    ensures
        distance is None <==> a.nan() || b.nan() || (a.infinite() && b.infinite() && a.negative()
            == b.negative()),
        a.finite() && b.finite() ==> Format::binary64().rounds_to(
            crate::arithmetic::absolute(a.scaled() - b.scaled()),
            1,
            distance->0 as nat,
        ),
        distance is Some && (a.infinite() || b.infinite()) ==> distance == Some(INFINITY64),
        quotient is None <==> dividend == INFINITY64 && divisor == INFINITY64,
        dividend < INFINITY64 && divisor < INFINITY64 ==> Format::binary64().rounds_to(
            Format::binary64().units(dividend as nat) * Float64::one(),
            Format::binary64().units(divisor as nat),
            quotient->0 as nat,
        ),
        dividend == INFINITY64 && divisor < INFINITY64 ==> quotient == Some(INFINITY64),
        dividend < INFINITY64 && divisor == INFINITY64 ==> quotient == Some(0u64),
        !a.nan() ==> Format::binary64().units(at_least as nat) == if Format::binary64().units(
            a.magnitude(),
        ) > Float64::one() {
            Format::binary64().units(a.magnitude())
        } else {
            Float64::one()
        },
        not_below <==> !a.nan() && Format::binary64().units(magnitude as nat) <= a.scaled(),
{
    crate::laws::numbers::law_difference(a, b);
    crate::laws::numbers::law_quotient(dividend as nat, divisor as nat);
    if !a.nan() {
        crate::laws::numbers::law_at_least_one(a);
    }
    crate::laws::numbers::law_not_below(a, magnitude as nat);
}

} // verus!
