use cp_sat_bridge::bridge::ProblemState;
use cp_sat_bridge::convert::{integer_bound, verify_integer};
use cp_sat_bridge::model::{CpModelBuilder, IntVar, Relation};
use cp_sat_bridge::solver::{CpSolverResponse, CpSolverSolution, CpSolverStatus, SatParameters};
use cp_sat_bridge::status::{gap_limit_reached, non_optimal_solution_status};
use cp_sat_bridge::{
    cp_sat, Constraint, ConstraintReference, CpSatProblem, CpSatSolution, Expression, Float32,
    Float64, LinearExpression, Message, MipGapError, ObjectiveDirection, ResolutionError,
    SolutionStatus, UnsolvedProblem, Variable, VariableDefinition,
};

fn number(x: f64) -> Float64 {
    Float64 { bits: x.to_bits() }
}

fn as_f64(x: Float64) -> f64 {
    f64::from_bits(x.bits)
}

fn rendered(message: &Message) -> String {
    message.render(|x: Float64| as_f64(x).to_string())
}

fn text_of(error: &ResolutionError) -> String {
    match error {
        ResolutionError::Str(message) => rendered(message),
        other => panic!("Expected ResolutionError::Str, got: {:?}", other),
    }
}

fn definition(is_integer: bool, min: f64, max: f64) -> VariableDefinition {
    VariableDefinition {
        is_integer,
        min: number(min),
        max: number(max),
        name: String::new(),
        initial: None,
    }
}

fn integer(min: f64, max: f64) -> VariableDefinition {
    definition(true, min, max)
}

fn binary() -> VariableDefinition {
    definition(true, 0.0, 1.0)
}

fn with_initial(mut def: VariableDefinition, initial: f64) -> VariableDefinition {
    def.initial = Some(number(initial));
    def
}

fn named(mut def: VariableDefinition, name: &str) -> VariableDefinition {
    def.name = name.to_string();
    def
}

const X: Variable = Variable { index: 0 };
const Y: Variable = Variable { index: 1 };

fn expression(terms: &[(Variable, f64)], constant: f64) -> Expression {
    Expression {
        linear: LinearExpression {
            coefficients: terms.iter().map(|(v, c)| (*v, number(*c))).collect(),
        },
        constant: number(constant),
    }
}

/// The constraint that the expression is at most zero.
fn at_most_zero(terms: &[(Variable, f64)], constant: f64) -> Constraint {
    Constraint { expression: expression(terms, constant), is_equality: false }
}

/// The constraint that the expression is zero.
fn zero(terms: &[(Variable, f64)], constant: f64) -> Constraint {
    Constraint { expression: expression(terms, constant), is_equality: true }
}

fn maximise(variables: Vec<VariableDefinition>, objective: Expression) -> CpSatProblem {
    cp_sat(UnsolvedProblem {
        objective,
        direction: ObjectiveDirection::Maximisation,
        variables,
    })
}

fn minimise(variables: Vec<VariableDefinition>, objective: Expression) -> CpSatProblem {
    cp_sat(UnsolvedProblem {
        objective,
        direction: ObjectiveDirection::Minimisation,
        variables,
    })
}

fn with(mut problem: CpSatProblem, constraint: Constraint) -> CpSatProblem {
    problem.add_constraint(constraint);
    problem
}

fn sum_of(terms: &[(i64, IntVar)], values: &[i64]) -> i64 {
    terms.iter().map(|(c, v)| c * values[v.index]).sum()
}

fn is_feasible(model: &CpModelBuilder, values: &[i64]) -> bool {
    model.constraints.iter().all(|c| {
        let value = sum_of(&c.expr.terms, values) + c.expr.constant;
        match c.relation {
            Relation::Equal => value == c.bound,
            Relation::AtMost => value <= c.bound,
        }
    })
}

/// A solver for small models: it tries every assignment.
fn exhaustive(model: &CpModelBuilder, params: &SatParameters) -> CpSolverResponse {
    let mut response = CpSolverResponse::default();
    let mut best: Option<(i64, Vec<i64>)> = None;
    let mut found: Vec<CpSolverSolution> = Vec::new();
    let mut values: Vec<i64> = model.variables.iter().map(|v| v.lower).collect();
    let objective = model.objective.as_ref().unwrap();
    'search: loop {
        if is_feasible(model, &values) {
            let value = sum_of(&objective.expr.terms, &values) + objective.expr.constant;
            let better = match &best {
                None => true,
                Some((known, _)) => match objective.direction {
                    ObjectiveDirection::Maximisation => value > *known,
                    ObjectiveDirection::Minimisation => value < *known,
                },
            };
            if better {
                best = Some((value, values.clone()));
                found.push(CpSolverSolution { values: values.clone() });
            }
        }
        let mut position = 0;
        loop {
            if position == values.len() {
                break 'search;
            }
            if values[position] < model.variables[position].upper {
                values[position] += 1;
                break;
            }
            values[position] = model.variables[position].lower;
            position += 1;
        }
    }
    match best {
        None => response.status = CpSolverStatus::Infeasible,
        Some((value, values)) => {
            response.status = CpSolverStatus::Optimal;
            response.objective_value = number(value as f64);
            response.best_objective_bound = number(value as f64);
            response.solution = values;
            if params.fill_additional_solutions_in_response == Some(true) {
                response.additional_solutions = found;
            }
        }
    }
    if params.log_to_response == Some(true) {
        response.solve_log = "exhaustive search: OPTIMAL".to_string();
    }
    response
}

fn no_complaint(_: &CpModelBuilder) -> String {
    String::new()
}

fn solve(problem: CpSatProblem) -> Result<CpSatSolution, ResolutionError> {
    problem.solve(exhaustive, no_complaint)
}

/// Solves with a response that is given.
fn answer(
    problem: CpSatProblem,
    response: CpSolverResponse,
) -> Result<CpSatSolution, ResolutionError> {
    problem.solve(move |_: &CpModelBuilder, _: &SatParameters| response, no_complaint)
}

fn value(solution: &CpSatSolution, variable: Variable) -> f64 {
    as_f64(solution.value(variable))
}

fn error_of(problem: CpSatProblem) -> ResolutionError {
    match solve(problem) {
        Ok(_) => panic!("Expected an error"),
        Err(error) => error,
    }
}

#[test]
fn solve_simple_integer_problem() {
    let pb = maximise(
        vec![integer(0.0, 10.0), integer(0.0, 5.0)],
        expression(&[(X, 1.0), (Y, 1.0)], 0.0),
    );
    let pb = with(pb, at_most_zero(&[(X, 1.0), (Y, 2.0)], -10.0));
    let pb = with(pb, at_most_zero(&[(X, -1.0)], 1.0));

    let sol = solve(pb).unwrap();
    assert_eq!(sol.status(), SolutionStatus::Optimal);
    assert_eq!(value(&sol, X), 10.0);
    assert_eq!(value(&sol, Y), 0.0);
}

#[test]
fn solve_binary_problem() {
    let pb = maximise(vec![binary(), binary()], expression(&[(X, 1.0), (Y, 1.0)], 0.0));
    let pb = with(pb, at_most_zero(&[(X, 1.0), (Y, 1.0)], -1.0));

    let sol = solve(pb).unwrap();
    assert_eq!(sol.status(), SolutionStatus::Optimal);
    assert_eq!(value(&sol, X) + value(&sol, Y), 1.0);
}

#[test]
fn solve_with_equality_constraint() {
    let pb = maximise(
        vec![integer(0.0, 10.0), integer(0.0, 10.0)],
        expression(&[(X, 1.0), (Y, 1.0)], 0.0),
    );
    let pb = with(pb, zero(&[(X, 1.0), (Y, -1.0)], 0.0));

    let sol = solve(pb).unwrap();
    assert_eq!(sol.status(), SolutionStatus::Optimal);
    assert_eq!(value(&sol, X), 10.0);
    assert_eq!(value(&sol, Y), 10.0);
}

#[test]
fn solve_minimization_problem() {
    let pb = minimise(vec![integer(0.0, 10.0)], expression(&[(X, 1.0)], 0.0));
    let pb = with(pb, at_most_zero(&[(X, -1.0)], 3.0));

    let sol = solve(pb).unwrap();
    assert_eq!(sol.status(), SolutionStatus::Optimal);
    assert_eq!(value(&sol, X), 3.0);
}

#[test]
fn solve_infeasible_problem() {
    let pb = maximise(
        vec![integer(0.0, 5.0), integer(0.0, 5.0)],
        expression(&[(X, 1.0), (Y, 1.0)], 0.0),
    );
    let pb = with(pb, at_most_zero(&[(X, -1.0), (Y, -1.0)], 20.0));

    let result = solve(pb);
    assert!(result.is_err());
    assert_eq!(result.err().unwrap(), ResolutionError::Infeasible);
}

#[test]
fn solve_problem_with_time_limit() {
    let pb = maximise(vec![binary()], expression(&[(X, 1.0)], 0.0)).with_time_limit(number(10.0));

    let sol = solve(pb).unwrap();
    assert_eq!(value(&sol, X), 1.0);
}

#[test]
fn solve_problem_with_initial_solution() {
    let pb = maximise(
        vec![integer(0.0, 10.0), integer(0.0, 10.0)],
        expression(&[(X, 1.0), (Y, 1.0)], 0.0),
    );
    let pb = with(pb, at_most_zero(&[(X, 1.0), (Y, 1.0)], -5.0));
    let pb = pb.with_initial_solution(vec![(X, number(2.0)), (Y, number(3.0))]);
    assert_eq!(
        pb.as_inner().unwrap().hints,
        vec![(IntVar { index: 0 }, 2), (IntVar { index: 1 }, 3)]
    );

    let sol = solve(pb).unwrap();
    assert_eq!(sol.status(), SolutionStatus::Optimal);
    assert_eq!(value(&sol, X) + value(&sol, Y), 5.0);
}

#[test]
fn solve_problem_with_initial_variable_values() {
    let pb = maximise(
        vec![
            with_initial(integer(0.0, 10.0), 5.0),
            with_initial(integer(0.0, 10.0), 5.0),
        ],
        expression(&[(X, 1.0), (Y, 1.0)], 0.0),
    );
    let pb = with(pb, at_most_zero(&[(X, 1.0), (Y, 1.0)], -8.0));

    let sol = solve(pb).unwrap();
    assert_eq!(sol.status(), SolutionStatus::Optimal);
    assert_eq!(value(&sol, X) + value(&sol, Y), 8.0);
}

#[test]
fn test_non_integer_coefficient_in_objective_returns_error() {
    let pb = maximise(vec![integer(0.0, 10.0)], expression(&[(X, 2.5)], 0.0));
    let result = solve(pb);
    assert!(result.is_err());
    let msg = text_of(&result.err().unwrap());
    assert!(
        msg.contains("not an integer"),
        "Error message should mention non-integer, got: {msg}"
    );
}

#[test]
fn test_non_integer_coefficient_in_constraint_returns_error() {
    let pb = maximise(vec![integer(0.0, 10.0)], expression(&[(X, 1.0)], 0.0));
    let pb = with(pb, at_most_zero(&[(X, 2.5)], -10.0));
    let result = solve(pb);
    assert!(result.is_err());
    let msg = text_of(&result.err().unwrap());
    assert!(
        msg.contains("not an integer"),
        "Error message should mention non-integer, got: {msg}"
    );
}

#[test]
fn test_non_integer_constant_in_constraint_returns_error() {
    let pb = maximise(vec![integer(0.0, 10.0)], expression(&[(X, 1.0)], 0.0));
    let pb = with(pb, at_most_zero(&[(X, 1.0)], -10.5));
    let result = solve(pb);
    assert!(result.is_err());
    let msg = text_of(&result.err().unwrap());
    assert!(
        msg.contains("not an integer"),
        "Error message should mention non-integer, got: {msg}"
    );
}

#[test]
fn test_non_integer_initial_solution_is_skipped() {
    let pb = maximise(vec![integer(0.0, 10.0)], expression(&[(X, 1.0)], 0.0));
    let pb = pb.with_initial_solution(vec![(X, number(2.5))]);
    assert!(pb.as_inner().unwrap().hints.is_empty());
    let sol = solve(pb).unwrap();
    assert_eq!(value(&sol, X), 10.0);
}

#[test]
fn test_continuous_var_returns_error() {
    let pb = maximise(vec![definition(false, 0.0, 10.0)], expression(&[(X, 1.0)], 0.0));
    let result = solve(pb);
    assert!(result.is_err());
    let msg = text_of(&result.err().unwrap());
    assert!(
        msg.contains("does not support continuous variables"),
        "Error message should mention continuous variables, got: {msg}"
    );
}

#[test]
fn test_invalid_bounds_returns_error() {
    let pb = maximise(vec![integer(10.0, 0.0)], expression(&[(X, 1.0)], 0.0));
    let result = solve(pb);
    assert!(result.is_err());
    let msg = text_of(&result.err().unwrap());
    assert!(
        msg.contains("Invalid bounds"),
        "Error message should mention invalid bounds, got: {msg}"
    );
}

#[test]
fn fractional_bounds_preserve_the_integer_domain() {
    let pb = maximise(vec![integer(1.5, 4.5)], expression(&[(X, 1.0)], 0.0));
    let solution = solve(pb).unwrap();

    assert_eq!(value(&solution, X), 4.0);
}

#[test]
fn fractional_bounds_with_no_integer_between_them_return_error() {
    let result = solve(maximise(vec![integer(2.1, 2.9)], expression(&[(X, 1.0)], 0.0)));

    assert!(result.is_err());
}

#[test]
fn test_non_finite_bound_returns_error() {
    let pb = maximise(vec![integer(f64::NAN, 10.0)], expression(&[(X, 1.0)], 0.0));
    let result = solve(pb);
    assert!(result.is_err());
    let msg = text_of(&result.err().unwrap());
    assert!(
        msg.contains("requires finite variable bounds"),
        "Error message should mention non-finite bounds, got: {msg}"
    );
}

#[test]
fn test_infinite_bound_returns_error() {
    let pb = maximise(
        vec![integer(f64::NEG_INFINITY, 10.0)],
        expression(&[(X, 1.0)], 0.0),
    );
    let result = solve(pb);
    assert!(result.is_err());
    let msg = text_of(&result.err().unwrap());
    assert!(
        msg.contains("requires finite variable bounds"),
        "Error message should mention infinite values, got: {msg}"
    );
}

#[test]
fn test_nan_coefficient_in_constraint_returns_error() {
    let pb = maximise(vec![integer(0.0, 10.0)], expression(&[(X, 1.0)], 0.0));
    let pb = with(pb, at_most_zero(&[(X, 1.0)], 0.0 - f64::NAN));
    let result = solve(pb);
    assert!(result.is_err());
}

#[test]
fn test_nan_in_initial_solution_is_skipped() {
    let pb = maximise(vec![integer(0.0, 10.0)], expression(&[(X, 1.0)], 0.0));
    let pb = pb.with_initial_solution(vec![(X, number(f64::NAN))]);
    let sol = solve(pb).unwrap();
    assert_eq!(value(&sol, X), 10.0);
}

#[test]
fn test_continuous_var_in_multi_var_problem() {
    // Only the first variable is invalid; the whole problem fails all the same.
    let pb = maximise(
        vec![definition(false, 0.0, 10.0), integer(0.0, 5.0)],
        expression(&[(X, 1.0), (Y, 1.0)], 0.0),
    );
    let result = solve(pb);
    assert!(result.is_err());
}

#[test]
fn test_as_inner_on_invalid() {
    let pb = maximise(vec![definition(false, 0.0, 10.0)], expression(&[(X, 1.0)], 0.0));
    assert!(pb.as_inner().is_none());
    // The parameters can be read all the same.
    assert!(pb.params().num_search_workers.is_none());
}

#[test]
fn solve_with_large_coefficients() {
    let pb = maximise(vec![integer(0.0, 100.0)], expression(&[(X, 3.0 + 2.0)], 0.0));
    let pb = with(pb, at_most_zero(&[(X, 1.0)], -42.0));

    let sol = solve(pb).unwrap();
    assert_eq!(sol.status(), SolutionStatus::Optimal);
    assert_eq!(value(&sol, X), 42.0);
}

#[test]
fn solve_with_verbose_logging() {
    let pb = maximise(vec![integer(0.0, 10.0)], expression(&[(X, 1.0)], 0.0)).set_verbose(true);

    let sol = solve(pb).unwrap();
    assert_eq!(sol.status(), SolutionStatus::Optimal);
    assert_eq!(value(&sol, X), 10.0);
}

#[test]
fn solve_with_log_to_response() {
    let pb = maximise(vec![integer(0.0, 10.0)], expression(&[(X, 1.0)], 0.0))
        .set_log_to_response(true);

    let sol = solve(pb).unwrap();
    assert_eq!(sol.status(), SolutionStatus::Optimal);
    assert!(
        sol.solution_log().contains("OPTIMAL")
            || sol.solution_log().contains("objective")
            || sol.solution_log().is_empty(),
    );
}

fn workers_problem() -> CpSatProblem {
    let pb = maximise(
        vec![integer(0.0, 10.0), integer(0.0, 5.0)],
        expression(&[(X, 1.0), (Y, 1.0)], 0.0),
    );
    with(pb, at_most_zero(&[(X, 1.0), (Y, 2.0)], -10.0))
}

#[test]
fn solve_with_num_search_workers() {
    let pb = workers_problem().set_num_search_workers(2);

    let sol = solve(pb).unwrap();
    assert_eq!(sol.status(), SolutionStatus::Optimal);
    assert_eq!(value(&sol, X), 10.0);
    assert_eq!(value(&sol, Y), 0.0);
}

#[test]
fn solve_with_random_seed() {
    let pb = workers_problem().set_random_seed(42);

    let sol = solve(pb).unwrap();
    assert_eq!(sol.status(), SolutionStatus::Optimal);
    assert_eq!(value(&sol, X), 10.0);
    assert_eq!(value(&sol, Y), 0.0);
}

#[test]
fn solve_with_mip_abs_gap() {
    let pb = workers_problem().set_mip_abs_gap(number(0.01)).unwrap();

    let sol = solve(pb).unwrap();
    assert_eq!(sol.status(), SolutionStatus::Optimal);
    assert_eq!(value(&sol, X), 10.0);
}

#[test]
fn solve_with_mip_abs_gap_negative_errors() {
    let pb = maximise(vec![], expression(&[], 0.0));
    let result = pb.set_mip_abs_gap(number(-1.0));
    assert!(result.is_err());
    assert_eq!(result.err(), Some(MipGapError::Negative));
}

#[test]
fn solve_with_mip_abs_gap_infinite_errors() {
    let pb = maximise(vec![], expression(&[], 0.0));
    let result = pb.set_mip_abs_gap(number(f64::INFINITY));
    assert!(result.is_err());
    assert_eq!(result.err(), Some(MipGapError::Infinite));
}

fn status_line(response: &CpSolverResponse, has_objective: bool) -> String {
    let status = format!("{:?}", response.status).to_uppercase();
    if has_objective {
        format!("status: {}\nobjective: {}", status, as_f64(response.objective_value))
    } else {
        format!("status: {}\nobjective: NA", status)
    }
}

#[test]
fn solve_with_response_stats() {
    let pb = maximise(vec![integer(0.0, 10.0)], expression(&[(X, 1.0)], 0.0));

    let sol = solve(pb).unwrap();
    let stats = sol.response_stats(status_line);
    assert!(!stats.is_empty());
    assert!(
        stats.contains("OPTIMAL") || stats.contains("optimal"),
        "response_stats should mention OPTIMAL, got: {stats}"
    );
    assert_eq!(stats, "status: OPTIMAL\nobjective: 10");
}

fn model_line(model: &CpModelBuilder) -> String {
    format!("variables: {}, constraints: {}", model.variables.len(), model.constraints.len())
}

#[test]
fn solve_with_model_stats() {
    let pb = maximise(vec![integer(0.0, 10.0)], expression(&[(X, 1.0)], 0.0));

    let stats = pb.model_stats(model_line);
    assert!(stats.is_some(), "model_stats should be Some, got: None");
    assert!(
        !stats.as_ref().unwrap().is_empty(),
        "model_stats should not be empty, got: {:?}",
        stats
    );
    assert_eq!(stats.unwrap(), "variables: 1, constraints: 0");
}

#[test]
fn test_model_stats_on_invalid() {
    let pb = maximise(vec![definition(false, 0.0, 10.0)], expression(&[(X, 1.0)], 0.0));
    assert!(pb.model_stats(model_line).is_none());
}

#[test]
fn solve_with_params_access() {
    let pb = maximise(vec![integer(0.0, 10.0)], expression(&[(X, 1.0)], 0.0))
        .set_num_search_workers(4)
        .set_random_seed(99);

    assert_eq!(pb.params().num_search_workers, Some(4));
    assert_eq!(pb.params().random_seed, Some(99));

    let sol = solve(pb).unwrap();
    assert_eq!(value(&sol, X), 10.0);
}

#[test]
fn solve_with_mip_gap_trait() {
    let gap = Float32 { bits: 0.05f32.to_bits() };
    let pb = maximise(vec![integer(0.0, 10.0)], expression(&[(X, 1.0)], 0.0))
        .with_mip_gap(gap)
        .unwrap();

    assert_eq!(pb.mip_gap(), Some(gap));

    let sol = solve(pb).unwrap();
    assert_eq!(value(&sol, X), 10.0);
}

#[test]
fn detects_a_gap_limit_reported_as_optimal_by_cp_sat() {
    let response = CpSolverResponse {
        objective_value: number(100.0),
        best_objective_bound: number(110.0),
        ..CpSolverResponse::default()
    };
    let params = SatParameters {
        relative_gap_limit: Some(number(0.1)),
        ..SatParameters::default()
    };

    assert!(gap_limit_reached(&response, &params));
}

#[test]
fn feasible_without_a_supported_stopping_reason_is_not_optimal() {
    let response = CpSolverResponse {
        solution_info: "stopped after first solution".to_owned(),
        ..CpSolverResponse::default()
    };

    let result = non_optimal_solution_status(&response, &SatParameters::default());
    assert!(result.is_err());
    assert_eq!(
        text_of(&result.err().unwrap()),
        "CP-SAT returned a feasible solution without proving optimality, but good_lp cannot \
         represent its stopping reason as a SolutionStatus. CP-SAT solution info: \
         stopped after first solution"
    );
}

#[test]
fn objective_constant_is_forwarded_to_cp_sat() {
    let pb = maximise(vec![integer(0.0, 10.0)], expression(&[(X, 1.0)], 100.0));
    let solution = solve(pb).unwrap();

    assert_eq!(as_f64(solution.response().objective_value), 110.0);
}

#[test]
fn fractional_objective_constant_returns_error() {
    let pb = maximise(vec![integer(0.0, 10.0)], expression(&[(X, 1.0)], 0.5));
    let result = solve(pb);

    assert!(result.is_err());
}

#[test]
fn solve_and_into_response() {
    let pb = maximise(vec![integer(0.0, 10.0)], expression(&[(X, 1.0)], 0.0));

    let sol = solve(pb).unwrap();
    let response = sol.into_response();
    assert!(!response.solution.is_empty());
}

#[test]
fn solve_with_time_limit_via_params() {
    let mut pb = maximise(vec![binary()], expression(&[(X, 1.0)], 0.0));
    pb.params_mut().max_deterministic_time = Some(number(10.0));
    assert_eq!(pb.params().max_deterministic_time, Some(number(10.0)));

    let sol = solve(pb).unwrap();
    assert_eq!(value(&sol, X), 1.0);
}

#[test]
fn solve_with_verbose_and_response_log() {
    let pb = maximise(vec![integer(0.0, 10.0)], expression(&[(X, 1.0)], 0.0))
        .set_verbose(true)
        .set_log_to_response(true);

    let sol = solve(pb).unwrap();
    assert_eq!(sol.status(), SolutionStatus::Optimal);
    assert_eq!(value(&sol, X), 10.0);
}

#[test]
fn error_messages_quote_what_they_refuse() {
    assert_eq!(
        text_of(&verify_integer(number(2.5)).unwrap_err()),
        "The CP-SAT solver only accepts integer values for coefficients, constants, \
         or variable bounds. Received `2.5`, which is not an integer. \
         Please round or scale your values to integers."
    );
    assert_eq!(
        text_of(&verify_integer(number(f64::NEG_INFINITY)).unwrap_err()),
        "The CP-SAT solver does not accept infinite values for coefficients, constants, \
         or variable bounds. Received `-inf`, which is not finite."
    );
    assert_eq!(
        text_of(&verify_integer(number(1e300)).unwrap_err()),
        format!("The CP-SAT solver value `{}` is out of the i64 range.", 1e300f64)
    );
    assert_eq!(
        text_of(&integer_bound(number(f64::NAN), true).unwrap_err()),
        "The CP-SAT solver requires finite variable bounds. Received `NaN`, which is not finite."
    );
    assert_eq!(
        text_of(&integer_bound(number(-1e19), false).unwrap_err()),
        "The CP-SAT solver value `-10000000000000000000` is out of the i64 range."
    );
}

#[test]
fn variable_errors_name_the_variable() {
    let objective = || expression(&[(X, 1.0)], 0.0);
    let pb = maximise(vec![named(integer(10.0, 0.5), "width")], objective());
    assert_eq!(
        text_of(&error_of(pb)),
        "Invalid bounds for variable 'width': lower bound (10) > upper bound (0.5)"
    );
    let mut variables: Vec<VariableDefinition> = (0..12).map(|_| binary()).collect();
    variables.push(integer(2.1, 2.9));
    assert_eq!(
        text_of(&error_of(maximise(variables, objective()))),
        "Invalid bounds for variable (index 12): lower bound (2.1) > upper bound (2.9)"
    );
    let pb = maximise(vec![binary(), named(definition(false, 0.0, 1.0), "share")], objective());
    assert_eq!(
        text_of(&error_of(pb)),
        "CP-SAT does not support continuous variables. \
         Variable 'share' (index 1) was not declared as integer or binary. \
         Please use `.integer()` or `.binary()` on the variable definition."
    );
}

#[test]
fn integers_convert_at_the_limits() {
    assert_eq!(verify_integer(number(-9223372036854775808.0)).ok(), Some(i64::MIN));
    assert_eq!(verify_integer(number(9223372036854774784.0)).ok(), Some(9223372036854774784));
    assert!(verify_integer(number(9223372036854775808.0)).is_err());
    assert!(verify_integer(number(-9223372036854777856.0)).is_err());
    assert_eq!(verify_integer(number(-0.0)).ok(), Some(0));
    assert_eq!(verify_integer(number(5e-324)).ok(), None);
    assert_eq!(verify_integer(number(9007199254740993.0)).ok(), Some(9007199254740992));
    assert_eq!(integer_bound(number(-0.5), true).ok(), Some(0));
    assert_eq!(integer_bound(number(-0.5), false).ok(), Some(-1));
    assert_eq!(integer_bound(number(5e-324), true).ok(), Some(1));
    assert_eq!(integer_bound(number(4503599627370495.5), true).ok(), Some(4503599627370496));
}

#[test]
fn zero_coefficients_stay_in_the_objective_only() {
    let pb = maximise(
        vec![integer(0.0, 3.0), integer(0.0, 3.0)],
        expression(&[(X, 0.0), (Y, 2.0)], 0.0),
    );
    let pb = with(pb, at_most_zero(&[(X, 0.0), (Y, 1.0)], -1.0));
    let model = pb.as_inner().unwrap();
    assert_eq!(
        model.objective.as_ref().unwrap().expr.terms,
        vec![(0, IntVar { index: 0 }), (2, IntVar { index: 1 })]
    );
    assert_eq!(model.constraints[0].expr.terms, vec![(1, IntVar { index: 1 })]);
    assert_eq!(model.constraints[0].bound, 1);
    assert_eq!(model.constraints[0].relation, Relation::AtMost);
}

#[test]
fn the_first_error_is_kept_and_references_go_on() {
    let mut pb = maximise(vec![integer(0.0, 3.0)], expression(&[(X, 1.0)], 0.0));
    assert_eq!(
        pb.add_constraint(at_most_zero(&[(X, 1.0)], -2.0)),
        ConstraintReference { index: 0 }
    );
    assert_eq!(
        pb.add_constraint(at_most_zero(&[(X, 1.0)], 0.25)),
        ConstraintReference { index: 1 }
    );
    assert_eq!(
        pb.add_constraint(at_most_zero(&[(X, 7.5)], 0.0)),
        ConstraintReference { index: 2 }
    );
    assert_eq!(
        pb.add_constraint(at_most_zero(&[(X, 1.0)], 0.0)),
        ConstraintReference { index: 3 }
    );
    pb.clear_hints();
    let pb = pb.with_initial_solution(vec![(X, number(1.0))]);
    assert!(pb.as_inner().is_none());
    assert!(text_of(&error_of(pb)).contains("`-0.25`"));
}

#[test]
fn a_problem_that_starts_in_error_numbers_from_zero() {
    let mut pb = maximise(vec![definition(false, 0.0, 1.0)], expression(&[(X, 1.0)], 0.0));
    for index in 0..3 {
        assert_eq!(
            pb.add_constraint(at_most_zero(&[(X, 1.0)], 0.0)),
            ConstraintReference { index }
        );
    }
    assert!(text_of(&error_of(pb)).contains("continuous"));
}

#[test]
fn unknown_variables_behind_an_error_do_not_matter() {
    let far = Variable { index: 40 };
    let pb = maximise(
        vec![integer(0.0, 3.0)],
        expression(&[(X, 0.5), (far, 1.0)], 0.0),
    );
    assert!(text_of(&error_of(pb)).contains("`0.5`"));
    let pb = maximise(vec![integer(0.0, 3.0)], expression(&[(X, 1.0)], 0.0));
    let pb = with(pb, at_most_zero(&[(far, 0.0), (X, 1.0)], -1.0));
    let pb = pb.with_initial_solution(vec![(far, number(0.5)), (X, number(1.0))]);
    assert_eq!(value(&solve(pb).unwrap(), X), 1.0);
}

#[test]
fn hints_come_from_integers_only_and_can_be_cleared() {
    let mut pb = maximise(
        vec![
            with_initial(integer(0.0, 9.0), f64::INFINITY),
            with_initial(integer(0.0, 9.0), 4.0),
            with_initial(integer(0.0, 9.0), 4.5),
        ],
        expression(&[(X, 1.0)], 0.0),
    );
    assert_eq!(pb.as_inner().unwrap().hints, vec![(IntVar { index: 1 }, 4)]);
    pb = pb.with_initial_solution(vec![
        (X, number(1.0)),
        (Y, number(f64::NAN)),
        (Variable { index: 2 }, number(-3.0)),
    ]);
    assert_eq!(
        pb.as_inner().unwrap().hints,
        vec![(IntVar { index: 1 }, 4), (IntVar { index: 0 }, 1), (IntVar { index: 2 }, -3)]
    );
    pb.clear_hints();
    assert!(pb.as_inner().unwrap().hints.is_empty());
    assert_eq!(pb.as_inner().unwrap().variables.len(), 3);
}

#[test]
fn setters_set_their_parameter() {
    let pb = maximise(vec![binary()], expression(&[(X, 1.0)], 0.0));
    assert_eq!(*pb.params(), SatParameters::default());
    let pb = pb.set_verbose(false).set_log_to_response(false);
    assert_eq!(pb.params().log_search_progress, Some(false));
    assert_eq!(pb.params().log_to_response, Some(false));
    let pb = pb.set_log_to_response(true).set_fill_additional_solutions(true);
    let pb = pb.with_time_limit(number(1.5)).set_mip_abs_gap(number(0.25)).unwrap();
    assert_eq!(
        *pb.params(),
        SatParameters {
            log_search_progress: Some(true),
            log_to_response: Some(true),
            fill_additional_solutions_in_response: Some(true),
            max_time_in_seconds: Some(number(1.5)),
            absolute_gap_limit: Some(number(0.25)),
            ..SatParameters::default()
        }
    );
    assert_eq!(CpSatProblem::name(), "CP-SAT");
    assert_eq!(pb.mip_gap(), None);
    let sol = solve(pb).unwrap();
    let found: Vec<Vec<i64>> = sol.additional_solutions().iter().map(|s| s.values.clone()).collect();
    assert_eq!(found, vec![vec![0], vec![1]]);
}

#[test]
fn gap_tolerances_are_checked_by_sign_and_size() {
    let problem = || maximise(vec![], expression(&[], 0.0));
    let single = |x: f32| Float32 { bits: x.to_bits() };
    assert_eq!(problem().set_mip_abs_gap(number(-0.0)).err(), Some(MipGapError::Negative));
    assert!(problem().set_mip_abs_gap(number(0.0)).is_ok());
    let nan = f64::from_bits(0x7ff8000000000000);
    assert_eq!(problem().set_mip_abs_gap(number(nan)).err(), Some(MipGapError::Infinite));
    assert_eq!(problem().set_mip_abs_gap(number(-nan)).err(), Some(MipGapError::Negative));
    assert_eq!(problem().with_mip_gap(single(-0.5)).err(), Some(MipGapError::Negative));
    assert_eq!(problem().with_mip_gap(single(f32::INFINITY)).err(), Some(MipGapError::Infinite));
    assert_eq!(
        problem().with_mip_gap(single(f32::NEG_INFINITY)).err(),
        Some(MipGapError::Negative)
    );
    let pb = problem().with_mip_gap(single(0.05)).unwrap();
    assert_eq!(pb.params().relative_gap_limit, Some(number(0.05f32 as f64)));
    assert_eq!(problem().with_mip_gap(single(1e-45)).unwrap().mip_gap(), Some(single(1e-45)));
}

fn plain_problem() -> CpSatProblem {
    maximise(vec![integer(0.0, 200.0)], expression(&[(X, 1.0)], 0.0))
}

fn reply(status: CpSolverStatus, solution: Vec<i64>) -> CpSolverResponse {
    CpSolverResponse {
        status,
        solution,
        objective_value: number(100.0),
        best_objective_bound: number(110.0),
        solution_info: "rounding".to_string(),
        ..CpSolverResponse::default()
    }
}

#[test]
fn an_optimal_reply_within_a_gap_limit_is_a_gap_limit() {
    let sol = answer(plain_problem(), reply(CpSolverStatus::Optimal, vec![100])).unwrap();
    assert_eq!(sol.status(), SolutionStatus::Optimal);
    let pb = plain_problem().set_mip_abs_gap(number(10.0)).unwrap();
    let sol = answer(pb, reply(CpSolverStatus::Optimal, vec![100])).unwrap();
    assert_eq!(sol.status(), SolutionStatus::GapLimit);
    assert_eq!(value(&sol, X), 100.0);
    let pb = plain_problem().set_mip_abs_gap(number(9.5)).unwrap();
    let sol = answer(pb, reply(CpSolverStatus::Optimal, vec![100])).unwrap();
    assert_eq!(sol.status(), SolutionStatus::Optimal);
}

#[test]
fn a_feasible_reply_needs_a_reason() {
    for status in [CpSolverStatus::Feasible, CpSolverStatus::Unknown] {
        let error = answer(plain_problem(), reply(status, vec![100])).err().unwrap();
        assert!(text_of(&error).ends_with("CP-SAT solution info: rounding"));
        let pb = plain_problem().with_time_limit(number(1.0));
        let sol = answer(pb, reply(status, vec![100])).unwrap();
        assert_eq!(sol.status(), SolutionStatus::TimeLimit);
        let mut pb = plain_problem().set_mip_abs_gap(number(10.0)).unwrap();
        pb.params_mut().max_deterministic_time = Some(number(1.0));
        let sol = answer(pb, reply(status, vec![100])).unwrap();
        assert_eq!(sol.status(), SolutionStatus::GapLimit);
    }
}

#[test]
fn a_reply_without_a_solution_is_an_error() {
    let reply_with = |status| reply(status, vec![]);
    assert_eq!(
        answer(plain_problem(), reply_with(CpSolverStatus::Infeasible)).err().unwrap(),
        ResolutionError::Infeasible
    );
    assert_eq!(
        answer(plain_problem(), reply_with(CpSolverStatus::Unknown)).err().unwrap(),
        ResolutionError::Other("Unknown solver status: search limit reached or other interruption")
    );
    let limited = plain_problem().with_time_limit(number(1.0));
    assert_eq!(
        answer(limited, reply_with(CpSolverStatus::Unknown)).err().unwrap(),
        ResolutionError::Other("Time limit reached without finding a feasible solution")
    );
}

#[test]
fn a_refused_model_is_validated() {
    let result = plain_problem().solve(
        |_: &CpModelBuilder, _: &SatParameters| reply(CpSolverStatus::ModelInvalid, vec![]),
        |model: &CpModelBuilder| format!("{} variable is wrong", model.variables.len()),
    );
    assert_eq!(
        text_of(&result.err().unwrap()),
        "Invalid CP-SAT model: 1 variable is wrong"
    );
}

#[test]
fn the_engine_gets_the_model_and_the_parameters() {
    let pb = with(workers_problem(), zero(&[(Y, 3.0)], -3.0)).set_random_seed(7);
    let result = pb.solve(
        |model: &CpModelBuilder, params: &SatParameters| {
            assert_eq!(params.random_seed, Some(7));
            assert_eq!(model.variables.len(), 2);
            assert_eq!(model.variables[1].upper, 5);
            assert_eq!(model.constraints.len(), 2);
            assert_eq!(model.constraints[1].relation, Relation::Equal);
            assert_eq!(model.constraints[1].expr.terms, vec![(3, IntVar { index: 1 })]);
            assert_eq!(model.constraints[1].bound, 3);
            exhaustive(model, params)
        },
        no_complaint,
    );
    let sol = result.unwrap();
    assert_eq!((value(&sol, X), value(&sol, Y)), (8.0, 1.0));
}

#[test]
fn a_problem_in_error_is_not_solved() {
    let pb = maximise(vec![integer(0.0, 1.0)], expression(&[(X, 0.1)], 0.0));
    let result = pb.solve(
        |_: &CpModelBuilder, _: &SatParameters| -> CpSolverResponse { panic!("solved") },
        |_: &CpModelBuilder| -> String { panic!("validated") },
    );
    assert!(text_of(&result.err().unwrap()).contains("`0.1`"));
}

#[test]
fn a_definition_is_refused_before_the_objective() {
    let pb = maximise(vec![integer(1.0, 0.0)], expression(&[(X, 0.5)], 0.5));
    assert!(text_of(&error_of(pb)).contains("Invalid bounds"));
    let pb = maximise(vec![integer(0.0, 1.0)], expression(&[(X, 0.5)], 0.25));
    assert!(text_of(&error_of(pb)).contains("`0.5`"));
}

#[test]
fn the_model_allows_what_the_problem_allows() {
    let bounds = [(-2.5, 3.5), (0.25, 4.0)];
    let limits = [(vec![(X, 2.0), (Y, -3.0)], 1.0, false), (vec![(X, 1.0), (Y, 1.0)], -4.0, true)];
    let mut pb = minimise(
        bounds.iter().map(|(min, max)| integer(*min, *max)).collect(),
        expression(&[(X, -3.0), (Y, 7.0)], -11.0),
    );
    for (terms, constant, is_equality) in &limits {
        pb.add_constraint(Constraint {
            expression: expression(terms, *constant),
            is_equality: *is_equality,
        });
    }
    let model = pb.as_inner().unwrap();
    let expr = &model.objective.as_ref().unwrap().expr;
    for x in -10..10i64 {
        for y in -10..10i64 {
            let values = [x as f64, y as f64];
            let within = (0..2).all(|i| bounds[i].0 <= values[i] && values[i] <= bounds[i].1);
            let holds = limits.iter().all(|(terms, constant, is_equality)| {
                let sum: f64 = terms.iter().map(|(v, c)| c * values[v.index]).sum();
                if *is_equality {
                    sum + constant == 0.0
                } else {
                    sum + constant <= 0.0
                }
            });
            let in_domain = model
                .variables
                .iter()
                .zip([x, y])
                .all(|(v, value)| v.lower <= value && value <= v.upper);
            assert_eq!(in_domain, within, "{x} {y}");
            assert_eq!(is_feasible(model, &[x, y]), holds, "{x} {y}");
            assert_eq!(
                (sum_of(&expr.terms, &[x, y]) + expr.constant) as f64,
                -3.0 * values[0] + 7.0 * values[1] - 11.0
            );
        }
    }
}

#[test]
fn values_are_integers_and_exact_where_a_number_can_hold_them() {
    for (n, expected) in [
        (9007199254740992i64, 9007199254740992i64),
        (9007199254740993, 9007199254740992),
        (9007199254740994, 9007199254740994),
        (-9007199254740995, -9007199254740996),
        (4611686018427387904, 4611686018427387904),
        (i64::MIN, i64::MIN),
    ] {
        let pb = minimise(vec![integer(-1.0, 1.0)], expression(&[], 0.0));
        let response = CpSolverResponse {
            status: CpSolverStatus::Optimal,
            solution: vec![n],
            ..CpSolverResponse::default()
        };
        let x = answer(pb, response).unwrap().value(X);
        assert!(x.is_integral());
        assert_eq!(verify_integer(x).ok(), Some(expected));
    }
    assert_eq!(as_f64(Float64::from_i64(i64::MAX)), 9223372036854775808.0);
}

#[test]
fn an_optimal_solution_satisfies_the_problem_and_is_best() {
    let terms = [(X, 3.0), (Y, -2.0)];
    let limits = [vec![(X, 2.0), (Y, -3.0)], vec![(X, -1.0), (Y, 2.0)]];
    for direction in [ObjectiveDirection::Maximisation, ObjectiveDirection::Minimisation] {
        let mut pb = cp_sat(UnsolvedProblem {
            objective: expression(&terms, 5.0),
            direction,
            variables: vec![integer(-4.5, 6.5), integer(-3.25, 7.75)],
        })
        .with_initial_solution(vec![(X, number(1.0))])
        .set_random_seed(3);
        for limit in &limits {
            pb.add_constraint(at_most_zero(limit, -4.0));
        }
        let sol = solve(pb).unwrap();
        assert_eq!(sol.status(), SolutionStatus::Optimal);
        let satisfied = |x: f64, y: f64| {
            let at = |terms: &[(Variable, f64)]| {
                terms.iter().map(|(v, c)| c * [x, y][v.index]).sum::<f64>()
            };
            let within = -4.5 <= x && x <= 6.5 && -3.25 <= y && y <= 7.75;
            within && limits.iter().all(|limit| at(limit) - 4.0 <= 0.0)
        };
        let objective = |x: f64, y: f64| 3.0 * x - 2.0 * y + 5.0;
        let (x, y) = (value(&sol, X), value(&sol, Y));
        assert!(satisfied(x, y));
        for other_x in -20..20 {
            for other_y in -20..20 {
                if satisfied(other_x as f64, other_y as f64) {
                    let other = objective(other_x as f64, other_y as f64);
                    match direction {
                        ObjectiveDirection::Maximisation => assert!(objective(x, y) >= other),
                        ObjectiveDirection::Minimisation => assert!(objective(x, y) <= other),
                    }
                }
            }
        }
    }
}

#[test]
fn the_first_of_two_errors_stays() {
    let mut pb = minimise(vec![integer(0.0, 1.0)], expression(&[(X, 1.0)], 0.0));
    let first = pb.add_constraint(at_most_zero(&[(X, 0.5)], 0.0));
    let second = pb.add_constraint(at_most_zero(&[(X, f64::INFINITY)], 0.0));
    assert_eq!((first.index, second.index), (0, 1));
    assert!(text_of(&error_of(pb)).contains("Received `0.5`"));
}

#[test]
fn hints_and_constraints_commute() {
    let start = || minimise(vec![integer(0.0, 9.0)], expression(&[(X, 1.0)], 0.0));
    let hints = || vec![(X, number(4.0)), (X, number(0.5))];
    let limit = || at_most_zero(&[(X, -1.0)], 2.0);
    let hinted_first = with(start().with_initial_solution(hints()), limit());
    let hinted_last = with(start(), limit()).with_initial_solution(hints());
    assert_eq!(hinted_first.as_inner(), hinted_last.as_inner());
    assert_eq!(hinted_last.as_inner().unwrap().hints.len(), 1);
}

#[test]
fn putting_a_state_in_error_twice_is_doing_it_once() {
    let mut state =
        ProblemState::Valid { model: CpModelBuilder::new(), cp_sat_vars: vec![IntVar { index: 0 }] };
    state.into_invalid(ResolutionError::Infeasible, 3);
    for _ in 0..2 {
        match &state {
            ProblemState::Invalid { reason, next_constraint_index } => {
                assert_eq!(*reason, ResolutionError::Infeasible);
                assert_eq!(*next_constraint_index, 3);
            }
            ProblemState::Valid { .. } => panic!("the state is in error"),
        }
        state.into_invalid(ResolutionError::Unbounded, 8);
    }
}

#[test]
fn a_rounded_value_stays_within_its_bounds() {
    // The bounds are numbers of 64 bits; the integers between them are not.
    let (min, max) = (9007199254740992.0, 9007199254740996.0);
    for n in 9007199254740992..=9007199254740996i64 {
        let pb = minimise(vec![integer(min, max)], expression(&[], 0.0));
        let response = CpSolverResponse {
            status: CpSolverStatus::Optimal,
            solution: vec![n],
            ..CpSolverResponse::default()
        };
        let x = answer(pb, response).unwrap().value(X);
        assert!(x.is_integral());
        assert!(min <= as_f64(x) && as_f64(x) <= max);
    }
}
