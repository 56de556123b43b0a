//! What goes into the CP-SAT solver besides a model, and what comes out of it.
use vstd::prelude::*;
use crate::float::Float64;

verus! {

/// The solver parameters that a problem sets or reads; a parameter that is not set has the
/// solver's default.
#[derive(Clone, Copy, Debug, PartialEq, Eq)]
pub struct SatParameters {
    /// Whether to log the progress of the search.
    pub log_search_progress: Option<bool>,
    /// Whether to put the log into the response.
    pub log_to_response: Option<bool>,
    /// The number of parallel workers.
    pub num_search_workers: Option<i32>,
    /// The seed of the pseudo-random number generator.
    pub random_seed: Option<i32>,
    /// Whether to put all the solutions that were found into the response.
    pub fill_additional_solutions_in_response: Option<bool>,
    /// The limit on the wall time, in seconds.
    pub max_time_in_seconds: Option<Float64>,
    /// The limit on the deterministic time.
    pub max_deterministic_time: Option<Float64>,
    /// The gap between objective and bound at which the search may stop.
    pub absolute_gap_limit: Option<Float64>,
    /// The gap, relative to the objective, at which the search may stop.
    pub relative_gap_limit: Option<Float64>,
}

impl SatParameters {
    /// No parameter set.
    pub open spec fn unset() -> SatParameters {
        SatParameters {
            log_search_progress: None,
            log_to_response: None,
            num_search_workers: None,
            random_seed: None,
            fill_additional_solutions_in_response: None,
            max_time_in_seconds: None,
            max_deterministic_time: None,
            absolute_gap_limit: None,
            relative_gap_limit: None,
        }
    }

    /// Whether the search is limited in time.
    pub open spec fn time_limited(self) -> bool {
        self.max_deterministic_time is Some || self.max_time_in_seconds is Some
    }
}

impl Default for SatParameters {
    fn default() -> (params: SatParameters)
        ensures
            params == SatParameters::unset(),
    {
        SatParameters {
            log_search_progress: None,
            log_to_response: None,
            num_search_workers: None,
            random_seed: None,
            fill_additional_solutions_in_response: None,
            max_time_in_seconds: None,
            max_deterministic_time: None,
            absolute_gap_limit: None,
            relative_gap_limit: None,
        }
    }
}

/// How a search ended.
#[derive(Clone, Copy, Debug, PartialEq, Eq, Structural)]
pub enum CpSolverStatus {
    /// A limit was reached before anything was known.
    Unknown,
    /// The model did not pass validation.
    ModelInvalid,
    /// A solution was found that may not be the best one.
    Feasible,
    /// There is no solution.
    Infeasible,
    /// A solution was found that is the best one, or within a gap limit of it.
    Optimal,
}

/// A solution: the value of each variable.
#[derive(Debug, PartialEq, Eq)]
pub struct CpSolverSolution {
    pub values: Vec<i64>,
}

/// A variable whose domain, a list of intervals, the solver has reduced.
#[derive(Debug, PartialEq, Eq)]
pub struct TightenedVariable {
    pub name: String,
    pub domain: Vec<i64>,
}

/// The integer objective that the solver has worked with.
#[derive(Debug, PartialEq, Eq)]
pub struct IntegerObjective {
    pub vars: Vec<i32>,
    pub coeffs: Vec<i64>,
    pub offset: Float64,
    pub scaling_factor: Float64,
    pub domain: Vec<i64>,
    pub scaling_was_exact: bool,
    pub integer_before_offset: i64,
    pub integer_after_offset: i64,
    pub integer_scaling_factor: i64,
}

/// A solver response.
#[derive(Debug, PartialEq, Eq)]
pub struct CpSolverResponse {
    pub status: CpSolverStatus,
    /// The value of each variable; empty where there is no solution.
    pub solution: Vec<i64>,
    pub objective_value: Float64,
    pub best_objective_bound: Float64,
    pub additional_solutions: Vec<CpSolverSolution>,
    pub tightened_variables: Vec<TightenedVariable>,
    pub sufficient_assumptions_for_infeasibility: Vec<i32>,
    pub integer_objective: Option<IntegerObjective>,
    pub inner_objective_lower_bound: i64,
    pub num_integers: i64,
    pub num_booleans: i64,
    pub num_fixed_booleans: i64,
    pub num_conflicts: i64,
    pub num_branches: i64,
    pub num_binary_propagations: i64,
    pub num_integer_propagations: i64,
    pub num_restarts: i64,
    pub num_lp_iterations: i64,
    pub wall_time: Float64,
    pub user_time: Float64,
    pub deterministic_time: Float64,
    pub gap_integral: Float64,
    /// How the solution was found.
    pub solution_info: String,
    /// The log, where it was asked for.
    pub solve_log: String,
}

impl CpSolverResponse {
    /// The assignment of the solution.
    pub open spec fn assignment(self) -> Seq<int> {
        self.solution@.map_values(|value: i64| value as int)
    }
}

impl Default for CpSolverResponse {
    /// The response that knows nothing: status unknown, numbers zero, texts and lists empty.
    fn default() -> (response: CpSolverResponse)
        ensures
            response.status == CpSolverStatus::Unknown,
            response.solution@.len() == 0,
            response.objective_value.bits == 0,
            response.best_objective_bound.bits == 0,
            response.additional_solutions@.len() == 0,
            response.tightened_variables@.len() == 0,
            response.sufficient_assumptions_for_infeasibility@.len() == 0,
            response.integer_objective is None,
            response.inner_objective_lower_bound == 0,
            response.num_integers == 0,
            response.num_booleans == 0,
            response.num_fixed_booleans == 0,
            response.num_conflicts == 0,
            response.num_branches == 0,
            response.num_binary_propagations == 0,
            response.num_integer_propagations == 0,
            response.num_restarts == 0,
            response.num_lp_iterations == 0,
            response.wall_time.bits == 0,
            response.user_time.bits == 0,
            response.deterministic_time.bits == 0,
            response.gap_integral.bits == 0,
            response.solution_info@.len() == 0,
            response.solve_log@.len() == 0,
    {
        CpSolverResponse {
            status: CpSolverStatus::Unknown,
            solution: Vec::new(),
            objective_value: Float64 { bits: 0 },
            best_objective_bound: Float64 { bits: 0 },
            additional_solutions: Vec::new(),
            tightened_variables: Vec::new(),
            sufficient_assumptions_for_infeasibility: Vec::new(),
            integer_objective: None,
            inner_objective_lower_bound: 0,
            num_integers: 0,
            num_booleans: 0,
            num_fixed_booleans: 0,
            num_conflicts: 0,
            num_branches: 0,
            num_binary_propagations: 0,
            num_integer_propagations: 0,
            num_restarts: 0,
            num_lp_iterations: 0,
            wall_time: Float64 { bits: 0 },
            user_time: Float64 { bits: 0 },
            deterministic_time: Float64 { bits: 0 },
            gap_integral: Float64 { bits: 0 },
            solution_info: String::new(),
            solve_log: String::new(),
        }
    }
}

} // verus!
