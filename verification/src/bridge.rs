//! The bridge to the CP-SAT solver.
//!
//! # Limitations
//!
//! - CP-SAT only supports integer and binary variables. A continuous variable makes the problem
//!   fail when it is solved.
//! - All coefficients and constants must be integers; other values make the problem fail when it
//!   is solved. Callers scale their coefficients themselves. Fractional bounds on integer variables
//!   are converted exactly by rounding lower bounds up and upper bounds down.
use vstd::prelude::*;
use crate::convert::{continuous_error, convert_terms, create_cp_sat_var,
    expr_from_constraint_expression, validate_gap, verify_integer};
use crate::error::{ErrorView, Message, MessageView, MipGapError, ResolutionError};
use crate::float::{Float32, Float64};
use crate::model::{CpModelBuilder, IntVar, IntegerVariableView, LinearExpr, ModelView,
    ObjectiveView};
use crate::problem::{Constraint, ConstraintReference, ObjectiveDirection, UnsolvedProblem,
    Variable, VariableDefinition};
use crate::solver::{CpSolverResponse, CpSolverSolution, SatParameters};
use crate::status::{Outcome, OutcomeView, SolutionStatus};

verus! {

/// The variables of a model with `count` of them.
pub open spec fn all_vars(count: nat) -> Seq<IntVar> {
    Seq::new(count, |i: int| IntVar { index: i as usize })
}

/// A problem either has a model that can be solved, or the error that kept it from having one.
/// A problem in error stays in error.
///
/// In error, a counter goes on numbering constraints, so that each one that is dropped still gets
/// a reference of its own.
#[derive(Debug)]
pub enum ProblemState {
    Valid { model: CpModelBuilder, cp_sat_vars: Vec<IntVar> },
    Invalid { reason: ResolutionError, next_constraint_index: usize },
}

/// The state of a problem.
#[verifier::ext_equal]
pub enum StateView {
    Valid { model: ModelView, vars: Seq<IntVar> },
    Invalid { reason: ErrorView, next_constraint_index: usize },
}

impl StateView {
    /// The state put in error. A state that is in error already stays as it is.
    pub open spec fn invalidated(self, reason: ErrorView, next_constraint_index: usize) -> StateView {
        match self {
            StateView::Valid { .. } => StateView::Invalid { reason, next_constraint_index },
            StateView::Invalid { .. } => self,
        }
    }
}

/// A problem for the CP-SAT solver: its state and its solver parameters.
#[verifier::ext_equal]
pub struct ProblemView {
    pub state: StateView,
    pub params: SatParameters,
}

impl View for ProblemState {
    type V = StateView;

    open spec fn view(&self) -> StateView {
        match self {
            ProblemState::Valid { model, cp_sat_vars } => StateView::Valid {
                model: model@,
                vars: cp_sat_vars@,
            },
            ProblemState::Invalid { reason, next_constraint_index } => StateView::Invalid {
                reason: reason@,
                next_constraint_index: *next_constraint_index,
            },
        }
    }
}

impl ProblemState {
    /// Puts the state in error; a state that is in error already keeps its error.
    pub fn into_invalid(&mut self, reason: ResolutionError, next_constraint_index: usize)
        ensures
            final(self)@ == old(self)@.invalidated(reason@, next_constraint_index),
            match *old(self) {
                ProblemState::Valid { .. } => *final(self) == (ProblemState::Invalid {
                    reason,
                    next_constraint_index,
                }),
                ProblemState::Invalid { .. } => *final(self) == *old(self),
            },
    {
        match self {
            ProblemState::Invalid { .. } => {},
            ProblemState::Valid { .. } => {
                *self = ProblemState::Invalid { reason, next_constraint_index };
            },
        }
    }
}

/// A problem for the CP-SAT solver. Made by [`cp_sat`].
///
/// Where the problem could not be converted, the error comes out when it is solved.
#[derive(Debug)]
pub struct CpSatProblem {
    state: ProblemState,
    solver_params: SatParameters,
}

impl View for CpSatProblem {
    type V = ProblemView;

    closed spec fn view(&self) -> ProblemView {
        ProblemView { state: self.state@, params: self.solver_params }
    }
}

impl ProblemView {
    /// Whether the variables are those of the model, in order, and the model names no others.
    pub open spec fn wf(self) -> bool {
        match self.state {
            StateView::Valid { model, vars } => {
                &&& model.variables.len() <= usize::MAX
                &&& vars == all_vars(model.variables.len())
                &&& model.wf()
            },
            StateView::Invalid { .. } => true,
        }
    }

    /// The reference that the next constraint gets.
    pub open spec fn next_index(self) -> nat {
        match self.state {
            StateView::Valid { model, .. } => model.constraints.len(),
            StateView::Invalid { next_constraint_index, .. } => next_constraint_index as nat,
        }
    }
}

impl CpSatProblem {
    /// A problem in error.
    fn invalid(reason: ResolutionError, solver_params: SatParameters) -> (problem: CpSatProblem)
        ensures
            problem@ == (ProblemView {
                state: StateView::Invalid { reason: reason@, next_constraint_index: 0 },
                params: solver_params,
            }),
    {
        CpSatProblem {
            state: ProblemState::Invalid { reason, next_constraint_index: 0 },
            solver_params,
        }
    }

    /// The model, for inspection; nothing where the problem is in error.
    pub fn as_inner(&self) -> (model: Option<&CpModelBuilder>)
        ensures
            match self@.state {
                StateView::Valid { model: inner, .. } => model is Some && model->0@ == inner,
                StateView::Invalid { .. } => model is None,
            },
    {
        match &self.state {
            ProblemState::Valid { model, .. } => Some(model),
            ProblemState::Invalid { .. } => None,
        }
    }

    /// Sets whether the solver logs its progress.
    pub fn set_verbose(self, verbose: bool) -> (problem: CpSatProblem)
        ensures
            problem@ == (ProblemView {
                params: SatParameters { log_search_progress: Some(verbose), ..self@.params },
                ..self@
            }),
    {
        let mut problem = self;
        problem.solver_params.log_search_progress = Some(verbose);
        problem
    }

    /// Sets whether the log goes into the response, where [`CpSatSolution::solution_log`] finds it.
    /// This turns logging on.
    pub fn set_log_to_response(self, log: bool) -> (problem: CpSatProblem)
        ensures
            problem@ == (ProblemView {
                params: SatParameters {
                    log_to_response: Some(log),
                    log_search_progress: if log {
                        Some(true)
                    } else {
                        self@.params.log_search_progress
                    },
                    ..self@.params
                },
                ..self@
            }),
    {
        let mut problem = self;
        problem.solver_params.log_to_response = Some(log);
        if log {
            problem.solver_params.log_search_progress = Some(true);
        }
        problem
    }

    /// Sets the number of parallel workers. With 1 the search is sequential; by default the solver
    /// picks the number itself.
    pub fn set_num_search_workers(self, n: i32) -> (problem: CpSatProblem)
        ensures
            problem@ == (ProblemView {
                params: SatParameters { num_search_workers: Some(n), ..self@.params },
                ..self@
            }),
    {
        let mut problem = self;
        problem.solver_params.num_search_workers = Some(n);
        problem
    }

    /// Sets the random seed.
    pub fn set_random_seed(self, seed: i32) -> (problem: CpSatProblem)
        ensures
            problem@ == (ProblemView {
                params: SatParameters { random_seed: Some(seed), ..self@.params },
                ..self@
            }),
    {
        let mut problem = self;
        problem.solver_params.random_seed = Some(seed);
        problem
    }

    /// Sets the absolute gap tolerance: the search stops where objective and bound are no further
    /// apart.
    pub fn set_mip_abs_gap(self, gap: Float64) -> (result: Result<CpSatProblem, MipGapError>)
        ensures
            match crate::convert::gap_check(gap) {
                Ok(_) => result is Ok && result->Ok_0@ == (ProblemView {
                    params: SatParameters { absolute_gap_limit: Some(gap), ..self@.params },
                    ..self@
                }),
                Err(error) => result is Err && result->Err_0 == error,
            },
    {
        match validate_gap(gap) {
            Ok(_) => {
                let mut problem = self;
                problem.solver_params.absolute_gap_limit = Some(gap);
                Ok(problem)
            },
            Err(error) => Err(error),
        }
    }

    /// Sets whether all the solutions found go into the response, where
    /// [`CpSatSolution::additional_solutions`] finds them.
    pub fn set_fill_additional_solutions(self, fill: bool) -> (problem: CpSatProblem)
        ensures
            problem@ == (ProblemView {
                params: SatParameters {
                    fill_additional_solutions_in_response: Some(fill),
                    ..self@.params
                },
                ..self@
            }),
    {
        let mut problem = self;
        problem.solver_params.fill_additional_solutions_in_response = Some(fill);
        problem
    }

    /// The solver parameters.
    pub fn params(&self) -> (params: &SatParameters)
        ensures
            *params == self@.params,
    {
        &self.solver_params
    }

    /// The solver parameters, for changing any of them.
    pub fn params_mut(&mut self) -> (params: &mut SatParameters)
        ensures
            *params == old(self)@.params,
            final(self)@ == (ProblemView { params: *final(params), ..old(self)@ }),
    {
        &mut self.solver_params
    }

    /// Drops all the hints, those from initial values of variables included.
    pub fn clear_hints(&mut self)
        ensures
            final(self)@ == old(self)@.without_hints(),
            old(self)@.wf() ==> final(self)@.wf(),
    {
        if let ProblemState::Valid { model, .. } = &mut self.state {
            model.del_hints();
        }
    }

    /// The statistics of the model, as `stats` writes them; nothing where the problem is in error.
    pub fn model_stats<S: FnOnce(&CpModelBuilder) -> String>(&self, stats: S) -> (text: Option<
        String,
    >)
        requires
            self@.state matches StateView::Valid { model, .. } ==> forall|m: CpModelBuilder|
                #![trigger m@]
                m@ == model ==> call_requires(stats, (&m,)),
        ensures
            match self@.state {
                StateView::Valid { model, .. } => text is Some && exists|m: CpModelBuilder|
                    #![trigger m@]
                    m@ == model && call_ensures(stats, (&m,), text->0),
                StateView::Invalid { .. } => text is None,
            },
    {
        match self.as_inner() {
            Some(model) => Some(stats(model)),
            None => None,
        }
    }

    /// Adds a constraint. Where it cannot be converted the problem is in error from then on.
    pub fn add_constraint(&mut self, constraint: Constraint) -> (reference: ConstraintReference)
        requires
            old(self)@.next_index() < usize::MAX,
            old(self)@.state matches StateView::Valid { vars, .. }
                ==> crate::convert::constraint_known(vars.len(), constraint),
        ensures
            reference.index == old(self)@.next_index(),
            final(self)@ == old(self)@.with_constraint(constraint),
            old(self)@.wf() ==> final(self)@.wf(),
    {
        proof {
            if old(self)@.wf() {
                crate::laws::law_constraint_keeps_well_formed(old(self)@, constraint);
            }
        }
        match &mut self.state {
            ProblemState::Invalid { next_constraint_index, .. } => {
                let index: usize = *next_constraint_index;
                *next_constraint_index = index + 1;
                ConstraintReference { index }
            },
            ProblemState::Valid { model, cp_sat_vars } => {
                let index: usize = model.constraints.len();
                let bound: i64 = match verify_integer(constraint.expression.constant.negated()) {
                    Ok(n) => n,
                    Err(error) => {
                        self.state.into_invalid(error, index + 1);
                        return ConstraintReference { index };
                    },
                };
                let linear: LinearExpr = match expr_from_constraint_expression(
                    cp_sat_vars,
                    &constraint.expression,
                ) {
                    Ok(expr) => expr,
                    Err(error) => {
                        self.state.into_invalid(error, index + 1);
                        return ConstraintReference { index };
                    },
                };
                if constraint.is_equality {
                    model.add_eq(linear, bound);
                } else {
                    model.add_le(linear, bound);
                }
                ConstraintReference { index }
            },
        }
    }

    /// The name of the solver.
    pub fn name() -> (name: &'static str)
        ensures
            name@ == "CP-SAT"@,
    {
        "CP-SAT"
    }

    /// Gives the solver values to start the search from. Values that are no integers are left out.
    pub fn with_initial_solution(self, solution: Vec<(Variable, Float64)>) -> (problem: CpSatProblem)
        requires
            self@.state matches StateView::Valid { vars, .. } ==> crate::convert::hints_known(
                vars.len(),
                solution@,
            ),
        ensures
            problem@ == self@.with_hints(solution@),
            self@.wf() ==> problem@.wf(),
    {
        proof {
            if self@.wf() {
                crate::laws::law_hints_keep_well_formed(self@, solution@);
            }
        }
        let mut problem = self;
        if let ProblemState::Valid { model, cp_sat_vars } = &mut problem.state {
            add_hints(model, cp_sat_vars, &solution);
        }
        problem
    }

    /// Limits the time of the search.
    pub fn with_time_limit(self, seconds: Float64) -> (problem: CpSatProblem)
        ensures
            problem@ == (ProblemView {
                params: SatParameters { max_time_in_seconds: Some(seconds), ..self@.params },
                ..self@
            }),
    {
        let mut problem = self;
        problem.solver_params.max_time_in_seconds = Some(seconds);
        problem
    }

    /// The relative gap tolerance.
    pub fn mip_gap(&self) -> (gap: Option<Float32>)
        ensures
            gap == (match self@.params.relative_gap_limit {
                Some(limit) => Some(limit.narrowed()),
                None => None,
            }),
    {
        match self.solver_params.relative_gap_limit {
            Some(limit) => Some(limit.to_float32()),
            None => None,
        }
    }

    /// Sets the relative gap tolerance: the search stops where objective and bound are no further
    /// apart, in proportion to the objective.
    pub fn with_mip_gap(self, mip_gap: Float32) -> (result: Result<CpSatProblem, MipGapError>)
        ensures
            match crate::convert::gap_check(mip_gap.widened()) {
                Ok(_) => result is Ok && result->Ok_0@ == (ProblemView {
                    params: SatParameters {
                        relative_gap_limit: Some(mip_gap.widened()),
                        ..self@.params
                    },
                    ..self@
                }),
                Err(error) => result is Err && result->Err_0 == error,
            },
    {
        let gap = mip_gap.to_float64();
        match validate_gap(gap) {
            Ok(_) => {
                let mut problem = self;
                problem.solver_params.relative_gap_limit = Some(gap);
                Ok(problem)
            },
            Err(error) => Err(error),
        }
    }
}

/// Adds to a model the hints that values stand for.
fn add_hints(model: &mut CpModelBuilder, cp_sat_vars: &Vec<IntVar>, values: &Vec<(Variable, Float64)>)
    requires
        crate::convert::hints_known(cp_sat_vars@.len(), values@),
    ensures
        final(model)@ == (ModelView {
            hints: old(model)@.hints + crate::convert::hints_of(cp_sat_vars@, values@),
            ..old(model)@
        }),
{
    let mut i: usize = 0;
    assert(values@.take(0) =~= Seq::empty());
    assert(old(model)@.hints + Seq::empty() =~= old(model)@.hints);
    while i < values.len()
        invariant
            i <= values.len(),
            crate::convert::hints_known(cp_sat_vars@.len(), values@),
            model@ == (ModelView {
                hints: old(model)@.hints + crate::convert::hints_of(
                    cp_sat_vars@,
                    values@.take(i as int),
                ),
                ..old(model)@
            }),
        decreases values.len() - i,
    {
        let (var, value) = values[i];
        assert(values@.take(i + 1).drop_last() =~= values@.take(i as int));
        if let Ok(hint) = verify_integer(value) {
            assert(values@[i as int].0.index < cp_sat_vars@.len());
            model.add_hint(cp_sat_vars[var.index], hint);
            assert(model@.hints =~= old(model)@.hints + crate::convert::hints_of(
                cp_sat_vars@,
                values@.take(i + 1),
            ));
        }
        i = i + 1;
    }
    assert(values@.take(i as int) =~= values@);
}

impl ProblemView {
    /// The problem with its hints dropped.
    pub open spec fn without_hints(self) -> ProblemView {
        match self.state {
            StateView::Valid { model, vars } => ProblemView {
                state: StateView::Valid {
                    model: ModelView { hints: Seq::empty(), ..model },
                    vars,
                },
                ..self
            },
            StateView::Invalid { .. } => self,
        }
    }

    /// The problem with hints added.
    pub open spec fn with_hints(self, values: Seq<(Variable, Float64)>) -> ProblemView {
        match self.state {
            StateView::Valid { model, vars } => ProblemView {
                state: StateView::Valid {
                    model: ModelView {
                        hints: model.hints + crate::convert::hints_of(vars, values),
                        ..model
                    },
                    vars,
                },
                ..self
            },
            StateView::Invalid { .. } => self,
        }
    }

    /// The problem with a constraint added.
    pub open spec fn with_constraint(self, constraint: Constraint) -> ProblemView {
        let state = match self.state {
            StateView::Valid { model, vars } => match crate::convert::constraint_of(
                vars,
                constraint,
            ) {
                Ok(converted) => StateView::Valid {
                    model: ModelView {
                        constraints: model.constraints.push(converted),
                        ..model
                    },
                    vars,
                },
                Err(reason) => self.state.invalidated(
                    reason,
                    (model.constraints.len() + 1) as usize,
                ),
            },
            StateView::Invalid { reason, next_constraint_index } => StateView::Invalid {
                reason,
                next_constraint_index: (next_constraint_index + 1) as usize,
            },
        };
        ProblemView { state, ..self }
    }
}

/// The model of a problem, or the error that kept it from having one. A definition gives its error
/// before a coefficient of the objective does, and that before the constant of the objective.
pub open spec fn model_of(problem: UnsolvedProblem) -> Result<ModelView, ErrorView> {
    match crate::convert::domains_of(problem.variables@) {
        Err(error) => Err(error),
        Ok(domains) => {
            let vars = all_vars(domains.len());
            match crate::convert::objective_of(vars, problem.objective) {
                Err(error) => Err(error),
                Ok(expr) => Ok(
                    ModelView {
                        variables: domains,
                        objective: Some(ObjectiveView { direction: problem.direction, expr }),
                        constraints: Seq::empty(),
                        hints: crate::convert::hints_of(
                            vars,
                            crate::convert::initial_values(problem.variables@),
                        ),
                    },
                ),
            }
        },
    }
}

/// A problem as it is put to the solver.
pub open spec fn converted(problem: UnsolvedProblem) -> ProblemView {
    ProblemView {
        state: match model_of(problem) {
            Ok(model) => StateView::Valid { model, vars: all_vars(model.variables.len()) },
            Err(reason) => StateView::Invalid { reason, next_constraint_index: 0 },
        },
        params: SatParameters::unset(),
    }
}

/// The error of a part of the definitions is the error of all of them.
proof fn lemma_domains_error(defs: Seq<VariableDefinition>, count: int)
    requires
        0 <= count <= defs.len(),
        crate::convert::domains_of(defs.take(count)) is Err,
    ensures
        crate::convert::domains_of(defs) == crate::convert::domains_of(defs.take(count)),
    decreases defs.len() - count,
{
    if count < defs.len() {
        assert(defs.take(count + 1).drop_last() =~= defs.take(count));
        lemma_domains_error(defs, count + 1);
    } else {
        assert(defs.take(count) =~= defs);
    }
}

/// Puts a problem to the CP-SAT solver.
///
/// The problem is in error, and the error comes out when it is solved, where
/// - a variable is not an integer variable,
/// - the bounds of a variable leave no integer between them,
/// - a coefficient or constant is not finite or not an integer of 64 bits,
/// - a bound of a variable is not finite or out of the range of 64 bits.
pub fn cp_sat(to_solve: UnsolvedProblem) -> (problem: CpSatProblem)
    requires
        crate::convert::domains_of(to_solve.variables@) is Ok ==> crate::convert::terms_known(
            to_solve.variables@.len(),
            to_solve.objective.linear.coefficients@,
            true,
        ),
    ensures
        problem@ == converted(to_solve),
        problem@.wf(),
{
    let mut model = CpModelBuilder::new();
    let solver_params = SatParameters::default();
    let ghost defs = to_solve.variables@;

    // The variables.
    let mut cp_sat_vars: Vec<IntVar> = Vec::new();
    let mut i: usize = 0;
    assert(defs.take(0) =~= Seq::empty());
    while i < to_solve.variables.len()
        invariant
            i <= to_solve.variables.len(),
            defs == to_solve.variables@,
            solver_params == SatParameters::unset(),
            cp_sat_vars@ =~= all_vars(i as nat),
            model@.variables.len() == i,
            crate::convert::domains_of(defs.take(i as int)) == Ok::<
                Seq<IntegerVariableView>,
                ErrorView,
            >(model@.variables),
            model@ == (ModelView { variables: model@.variables, ..ModelView::empty() }),
        decreases to_solve.variables.len() - i,
    {
        let def = &to_solve.variables[i];
        let var = Variable { index: i };
        assert(defs.take(i + 1).drop_last() =~= defs.take(i as int));
        if !def.is_integer {
            proof {
                lemma_domains_error(defs, i + 1);
            }
            return CpSatProblem::invalid(continuous_error(def.name.as_str(), i), solver_params);
        }
        match create_cp_sat_var(&mut model, def, var) {
            Ok(cp_var) => {
                cp_sat_vars.push(cp_var);
            },
            Err(error) => {
                proof {
                    lemma_domains_error(defs, i + 1);
                }
                return CpSatProblem::invalid(error, solver_params);
            },
        }
        i = i + 1;
    }
    assert(defs.take(i as int) =~= defs);

    // The objective.
    let mut objective: LinearExpr = match convert_terms(
        &cp_sat_vars,
        &to_solve.objective.linear.coefficients,
        true,
    ) {
        Ok(expr) => expr,
        Err(error) => {
            return CpSatProblem::invalid(error, solver_params);
        },
    };
    match verify_integer(to_solve.objective.constant) {
        Ok(constant) => {
            objective.constant = constant;
        },
        Err(error) => {
            return CpSatProblem::invalid(error, solver_params);
        },
    }
    match to_solve.direction {
        ObjectiveDirection::Maximisation => {
            model.maximize(objective);
        },
        ObjectiveDirection::Minimisation => {
            model.minimize(objective);
        },
    }

    // The hints.
    let initial = collect_initial_values(&to_solve.variables);
    let problem = CpSatProblem {
        state: ProblemState::Valid { model, cp_sat_vars },
        solver_params,
    };
    proof {
        lemma_initial_values_known(defs);
        crate::laws::law_converted_is_well_formed(to_solve);
    }
    let problem = problem.with_initial_solution(initial);
    assert(problem@ =~= converted(to_solve)) by {
        let vars = all_vars(defs.len());
        let hints = crate::convert::hints_of(vars, crate::convert::initial_values(defs));
        assert(Seq::<(IntVar, i64)>::empty() + hints =~= hints);
    }
    problem
}

/// Initial values belong to variables of the problem.
pub(crate) proof fn lemma_initial_values_known(defs: Seq<VariableDefinition>)
    requires
        defs.len() <= usize::MAX,
    ensures
        forall|i: int|
            0 <= i < crate::convert::initial_values(defs).len() ==> (
            #[trigger] crate::convert::initial_values(defs)[i]).0.index < defs.len(),
    decreases defs.len(),
{
    if defs.len() > 0 {
        let before = crate::convert::initial_values(defs.drop_last());
        let values = crate::convert::initial_values(defs);
        lemma_initial_values_known(defs.drop_last());
        assert forall|i: int| 0 <= i < values.len() implies (#[trigger] values[i]).0.index
            < defs.len() by {
            if i < before.len() {
                assert(values[i] == before[i]);
            }
        }
    }
}

/// The finite initial values of variables.
fn collect_initial_values(defs: &Vec<VariableDefinition>) -> (values: Vec<(Variable, Float64)>)
    ensures
        values@ == crate::convert::initial_values(defs@),
{
    let mut values: Vec<(Variable, Float64)> = Vec::new();
    let mut i: usize = 0;
    assert(defs@.take(0) =~= Seq::empty());
    while i < defs.len()
        invariant
            i <= defs.len(),
            values@ == crate::convert::initial_values(defs@.take(i as int)),
        decreases defs.len() - i,
    {
        assert(defs@.take(i + 1).drop_last() =~= defs@.take(i as int));
        if let Some(value) = defs[i].initial {
            if value.is_finite() {
                values.push((Variable { index: i }, value));
            }
        }
        i = i + 1;
    }
    assert(defs@.take(i as int) =~= defs@);
    values
}

/// The result of solving a problem: a solver response that holds a solution.
#[derive(Debug)]
pub struct CpSatSolution {
    response: CpSolverResponse,
    status: SolutionStatus,
    cp_sat_vars: Vec<IntVar>,
}

/// What a solution holds.
#[verifier::ext_equal]
pub struct SolutionView {
    pub response: CpSolverResponse,
    pub status: SolutionStatus,
    pub vars: Seq<IntVar>,
}

impl SolutionView {
    /// Whether the response holds a value for a variable.
    pub open spec fn has_value(self, variable: Variable) -> bool {
        &&& variable.index < self.vars.len()
        &&& self.vars[variable.index as int].index < self.response.solution@.len()
    }

    /// The integer that the response holds for a variable.
    pub open spec fn integer_of(self, variable: Variable) -> i64 {
        self.response.solution@[self.vars[variable.index as int].index as int]
    }

    /// The value of a variable.
    pub open spec fn value_of(self, variable: Variable) -> Float64 {
        Float64::of_integer(self.integer_of(variable) as int)
    }

    /// The integers that the values of the variables are.
    pub open spec fn assignment(self) -> Seq<int> {
        Seq::new(self.vars.len(), |i: int| self.value_of(Variable { index: i as usize }).floor())
    }
}

impl View for CpSatSolution {
    type V = SolutionView;

    closed spec fn view(&self) -> SolutionView {
        SolutionView {
            response: self.response,
            status: self.status,
            vars: self.cp_sat_vars@,
        }
    }
}

/// The error for a model that the solver refused.
pub open spec fn refused(validation: Seq<char>) -> ErrorView {
    ErrorView::Str(MessageView::plain("Invalid CP-SAT model: "@ + validation))
}

impl ProblemView {
    /// Whether `result` is what a problem with these variables and parameters gives for a response,
    /// `validate` being asked about a model that was refused.
    pub open spec fn answers<V: FnOnce(&CpModelBuilder) -> String>(
        self,
        model: CpModelBuilder,
        response: CpSolverResponse,
        validate: V,
        result: Result<CpSatSolution, ResolutionError>,
    ) -> bool {
        match crate::status::outcome_of(response, self.params) {
            OutcomeView::Solved(status) => result is Ok && result->Ok_0@ == (SolutionView {
                response,
                status,
                vars: self.state->vars,
            }),
            OutcomeView::Failed(error) => result is Err && result->Err_0@ == error,
            OutcomeView::Refused => result is Err && exists|validation: String|
                #[trigger] call_ensures(validate, (&model,), validation) && result->Err_0@
                    == refused(validation@),
        }
    }
}

impl CpSatProblem {
    /// Solves the problem. A problem in error gives its error. Otherwise `engine`, the solver, is
    /// run on the model and the parameters, and its response is interpreted; where it refuses the
    /// model, `validate` says why.
    pub fn solve<
        E: FnOnce(&CpModelBuilder, &SatParameters) -> CpSolverResponse,
        V: FnOnce(&CpModelBuilder) -> String,
    >(self, engine: E, validate: V) -> (result: Result<CpSatSolution, ResolutionError>)
        requires
            self@.state matches StateView::Valid { model, .. } ==> forall|m: CpModelBuilder|
                #![trigger m@]
                m@ == model ==> call_requires(engine, (&m, &self@.params)) && call_requires(
                    validate,
                    (&m,),
                ),
        ensures
            match self@.state {
                StateView::Invalid { reason, .. } => result is Err && result->Err_0@ == reason,
                StateView::Valid { model, .. } => exists|
                    m: CpModelBuilder,
                    response: CpSolverResponse,
                |
                    {
                        &&& m@ == model
                        &&& call_ensures(engine, (&m, &self@.params), response)
                        &&& #[trigger] self@.answers(m, response, validate, result)
                    },
            },
    {
        match self.state {
            ProblemState::Invalid { reason, .. } => Err(reason),
            ProblemState::Valid { model, cp_sat_vars } => {
                let response = engine(&model, &self.solver_params);
                let result: Result<CpSatSolution, ResolutionError> = match crate::status::interpret(
                    &response,
                    &self.solver_params,
                ) {
                    Outcome::Solved(status) => Ok(CpSatSolution { response, status, cp_sat_vars }),
                    Outcome::Failed(error) => Err(error),
                    Outcome::Refused => {
                        let validation: String = validate(&model);
                        let mut text: String = "Invalid CP-SAT model: ".to_owned();
                        text.append(validation.as_str());
                        Err(ResolutionError::Str(Message::plain(text)))
                    },
                };
                assert(self@.answers(model, response, validate, result));
                result
            },
        }
    }
}

impl CpSatSolution {
    /// The solver response.
    pub fn response(&self) -> (response: &CpSolverResponse)
        ensures
            *response == self@.response,
    {
        &self.response
    }

    /// The solver response, without the rest.
    pub fn into_response(self) -> (response: CpSolverResponse)
        ensures
            response == self@.response,
    {
        self.response
    }

    /// The statistics of the response, as `stats` writes them for a problem with an objective.
    pub fn response_stats<S: FnOnce(&CpSolverResponse, bool) -> String>(&self, stats: S) -> (text:
        String)
        requires
            call_requires(stats, (&self@.response, true)),
        ensures
            call_ensures(stats, (&self@.response, true), text),
    {
        stats(&self.response, true)
    }

    /// The log, where [`CpSatProblem::set_log_to_response`] has asked for it.
    pub fn solution_log(&self) -> (log: &str)
        ensures
            log@ == self@.response.solve_log@,
    {
        self.response.solve_log.as_str()
    }

    /// All the solutions that were found, where [`CpSatProblem::set_fill_additional_solutions`] has
    /// asked for them.
    pub fn additional_solutions(&self) -> (solutions: &[CpSolverSolution])
        ensures
            solutions@ == self@.response.additional_solutions@,
    {
        self.response.additional_solutions.as_slice()
    }

    /// How good the solution is known to be.
    pub fn status(&self) -> (status: SolutionStatus)
        ensures
            status == self@.status,
    {
        self.status
    }

    /// The value of a variable: an integer, exact where a number of 64 bits can hold it.
    pub fn value(&self, variable: Variable) -> (value: Float64)
        requires
            self@.has_value(variable),
        ensures
            value == self@.value_of(variable),
            value.integral(),
            Float64::holds_integer(self@.integer_of(variable) as int) ==> value.floor()
                == self@.integer_of(variable),
    {
        proof {
            crate::laws::law_value_exact(self@.integer_of(variable));
        }
        let cp_var: IntVar = self.cp_sat_vars[variable.index];
        Float64::from_i64(self.response.solution[cp_var.index])
    }
}

} // verus!
