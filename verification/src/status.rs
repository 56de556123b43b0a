//! What a solver response means.
use vstd::prelude::*;
use crate::error::{ErrorView, Message, MessageView, ResolutionError};
use crate::float::Float64;
use crate::solver::{CpSolverResponse, CpSolverStatus, SatParameters};

verus! {

/// How good a solution is known to be.
#[derive(Clone, Copy, Debug, PartialEq, Eq, Structural)]
pub enum SolutionStatus {
    /// There is no better solution.
    Optimal,
    /// The search ran out of time.
    TimeLimit,
    /// The search stopped within a gap tolerance.
    GapLimit,
}

/// Whether the search may have stopped because of a gap limit: the objective is apart from its
/// bound, but by no more than the absolute limit, or by no more than the relative limit in
/// proportion to the objective, which counts as 1 at least.
pub open spec fn gap_reached(response: CpSolverResponse, params: SatParameters) -> bool {
    match response.objective_value.difference(response.best_objective_bound) {
        None => false,
        Some(gap) => {
            &&& gap != 0
            &&& {
                ||| params.absolute_gap_limit matches Some(limit) && limit.not_below(gap)
                ||| params.relative_gap_limit matches Some(limit) && Float64::quotient(
                    gap,
                    response.objective_value.at_least_one(),
                ) matches Some(relative) && limit.not_below(relative)
            }
        },
    }
}

/// Whether the search may have stopped because of a gap limit.
pub fn gap_limit_reached(response: &CpSolverResponse, params: &SatParameters) -> (reached: bool)
    ensures
        reached == gap_reached(*response, *params),
{
    let gap: u64 = match response.objective_value.abs_difference(response.best_objective_bound) {
        Some(magnitude) => magnitude,
        None => {
            return false;
        },
    };
    if gap == 0 {
        return false;
    }
    if let Some(limit) = params.absolute_gap_limit {
        if limit.is_not_below(gap) {
            return true;
        }
    }
    if let Some(limit) = params.relative_gap_limit {
        let objective: u64 = response.objective_value.to_at_least_one();
        if let Some(relative) = crate::arithmetic::divide(gap, objective) {
            return limit.is_not_below(relative);
        }
    }
    false
}

/// The error for a solution whose search ended for a reason that has no status.
pub open spec fn no_status(info: Seq<char>) -> ErrorView {
    ErrorView::Str(
        MessageView::plain(
            "CP-SAT returned a feasible solution without proving optimality, but good_lp cannot \
             represent its stopping reason as a SolutionStatus. CP-SAT solution info: "@ + info,
        ),
    )
}

/// The status of a solution that is not known to be the best one, or the error that it gives.
pub open spec fn non_optimal_status(response: CpSolverResponse, params: SatParameters) -> Result<
    SolutionStatus,
    ErrorView,
> {
    if gap_reached(response, params) {
        Ok(SolutionStatus::GapLimit)
    } else if params.time_limited() {
        Ok(SolutionStatus::TimeLimit)
    } else {
        Err(no_status(response.solution_info@))
    }
}

/// The status of a solution that is not known to be the best one.
pub fn non_optimal_solution_status(
    response: &CpSolverResponse,
    params: &SatParameters,
) -> (result: Result<SolutionStatus, ResolutionError>)
    ensures
        crate::error::viewed(result) == non_optimal_status(*response, *params),
{
    if gap_limit_reached(response, params) {
        return Ok(SolutionStatus::GapLimit);
    }
    if params.max_deterministic_time.is_some() || params.max_time_in_seconds.is_some() {
        return Ok(SolutionStatus::TimeLimit);
    }
    let mut text: String =
        "CP-SAT returned a feasible solution without proving optimality, but good_lp cannot \
         represent its stopping reason as a SolutionStatus. CP-SAT solution info: ".to_owned();
    text.append(response.solution_info.as_str());
    Err(ResolutionError::Str(Message::plain(text)))
}

/// What is to be made of a response.
#[derive(Debug, PartialEq, Eq)]
pub enum Outcome {
    /// It holds a solution.
    Solved(SolutionStatus),
    /// It holds none.
    Failed(ResolutionError),
    /// The model was refused; its validation says why.
    Refused,
}

/// What an outcome says.
#[verifier::ext_equal]
pub enum OutcomeView {
    Solved(SolutionStatus),
    Failed(ErrorView),
    Refused,
}

impl View for Outcome {
    type V = OutcomeView;

    open spec fn view(&self) -> OutcomeView {
        match self {
            Outcome::Solved(status) => OutcomeView::Solved(*status),
            Outcome::Failed(error) => OutcomeView::Failed(error@),
            Outcome::Refused => OutcomeView::Refused,
        }
    }
}

/// What is to be made of a solution that is not known to be the best one.
pub open spec fn non_optimal_outcome(
    response: CpSolverResponse,
    params: SatParameters,
) -> OutcomeView {
    match non_optimal_status(response, params) {
        Ok(status) => OutcomeView::Solved(status),
        Err(error) => OutcomeView::Failed(error),
    }
}

/// What is to be made of a response to a search with the given parameters.
pub open spec fn outcome_of(response: CpSolverResponse, params: SatParameters) -> OutcomeView {
    match response.status {
        CpSolverStatus::Optimal => OutcomeView::Solved(
            if gap_reached(response, params) {
                SolutionStatus::GapLimit
            } else {
                SolutionStatus::Optimal
            },
        ),
        CpSolverStatus::Feasible => non_optimal_outcome(response, params),
        CpSolverStatus::Infeasible => OutcomeView::Failed(ErrorView::Infeasible),
        CpSolverStatus::Unknown => if response.solution@.len() > 0 {
            non_optimal_outcome(response, params)
        } else if params.time_limited() {
            OutcomeView::Failed(
                ErrorView::Other("Time limit reached without finding a feasible solution"@),
            )
        } else {
            OutcomeView::Failed(
                ErrorView::Other(
                    "Unknown solver status: search limit reached or other interruption"@,
                ),
            )
        },
        CpSolverStatus::ModelInvalid => OutcomeView::Refused,
    }
}

/// What is to be made of a response to a search with the given parameters.
pub fn interpret(response: &CpSolverResponse, params: &SatParameters) -> (outcome: Outcome)
    ensures
        outcome@ == outcome_of(*response, *params),
{
    match response.status {
        CpSolverStatus::Optimal => if gap_limit_reached(response, params) {
            Outcome::Solved(SolutionStatus::GapLimit)
        } else {
            Outcome::Solved(SolutionStatus::Optimal)
        },
        CpSolverStatus::Feasible => interpret_non_optimal(response, params),
        CpSolverStatus::Infeasible => Outcome::Failed(ResolutionError::Infeasible),
        CpSolverStatus::Unknown => if response.solution.len() > 0 {
            interpret_non_optimal(response, params)
        } else if params.max_deterministic_time.is_some() || params.max_time_in_seconds.is_some() {
            Outcome::Failed(
                ResolutionError::Other("Time limit reached without finding a feasible solution"),
            )
        } else {
            Outcome::Failed(
                ResolutionError::Other(
                    "Unknown solver status: search limit reached or other interruption",
                ),
            )
        },
        CpSolverStatus::ModelInvalid => Outcome::Refused,
    }
}

fn interpret_non_optimal(response: &CpSolverResponse, params: &SatParameters) -> (outcome: Outcome)
    ensures
        outcome@ == non_optimal_outcome(*response, *params),
{
    match non_optimal_solution_status(response, params) {
        Ok(status) => Outcome::Solved(status),
        Err(error) => Outcome::Failed(error),
    }
}

} // verus!
