//! Conversion of floating-point problems to integer models.
//!
//! The solver takes integers only. A coefficient or constant has to be an integer; a bound on an
//! integer variable may be fractional, since rounding a lower bound up and an upper bound down
//! leaves the same integers between them.
use vstd::prelude::*;
use crate::error::{ErrorView, Message, MessageView, MipGapError, ResolutionError};
use crate::float::Float64;
use crate::model::{CpModelBuilder, IntVar, IntegerVariableView, LinearConstraintView, LinearExpr,
    LinearExprView, ModelView, Relation};
use crate::problem::{Constraint, Expression, Variable, VariableDefinition};

verus! {

/// The error for a number that is not finite.
pub open spec fn not_finite(x: Float64) -> ErrorView {
    ErrorView::Str(
        MessageView {
            head: "The CP-SAT solver does not accept infinite values for coefficients, constants, \
             or variable bounds. Received `"@,
            tail: seq![(x, "`, which is not finite."@)],
        },
    )
}

/// The error for a number that is not an integer.
pub open spec fn not_an_integer(x: Float64) -> ErrorView {
    ErrorView::Str(
        MessageView {
            head: "The CP-SAT solver only accepts integer values for coefficients, constants, \
             or variable bounds. Received `"@,
            tail: seq![
                (
                    x,
                    "`, which is not an integer. Please round or scale your values to integers."@,
                ),
            ],
        },
    )
}

/// The error for an integer that 64 bits cannot hold.
pub open spec fn out_of_range(x: Float64) -> ErrorView {
    ErrorView::Str(
        MessageView {
            head: "The CP-SAT solver value `"@,
            tail: seq![(x, "` is out of the i64 range."@)],
        },
    )
}

/// The error for a bound that is not finite.
pub open spec fn bound_not_finite(x: Float64) -> ErrorView {
    ErrorView::Str(
        MessageView {
            head: "The CP-SAT solver requires finite variable bounds. Received `"@,
            tail: seq![(x, "`, which is not finite."@)],
        },
    )
}

/// The integer that a number is, or the error that it gives.
pub open spec fn integer_of(x: Float64) -> Result<i64, ErrorView> {
    if !x.finite() {
        Err(not_finite(x))
    } else if !x.integral() {
        Err(not_an_integer(x))
    } else if !(i64::MIN <= x.floor() <= i64::MAX) {
        Err(out_of_range(x))
    } else {
        Ok(x.floor() as i64)
    }
}

/// The integer bound that a bound stands for, or the error that it gives.
pub open spec fn bound_of(x: Float64, is_lower: bool) -> Result<i64, ErrorView> {
    let bound = if is_lower {
        x.ceil()
    } else {
        x.floor()
    };
    if !x.finite() {
        Err(bound_not_finite(x))
    } else if !(i64::MIN <= bound <= i64::MAX) {
        Err(out_of_range(x))
    } else {
        Ok(bound as i64)
    }
}

/// Converts a number that is a finite integer of 64 bits.
pub fn verify_integer(x: Float64) -> (result: Result<i64, ResolutionError>)
    ensures
        crate::error::viewed(result) == integer_of(x),
{
    if !x.is_finite() {
        return Err(
            ResolutionError::Str(
                Message::with_number(
                    "The CP-SAT solver does not accept infinite values for coefficients, constants, \
                     or variable bounds. Received `",
                    x,
                    "`, which is not finite.",
                ),
            ),
        );
    }
    if !x.is_integral() {
        return Err(
            ResolutionError::Str(
                Message::with_number(
                    "The CP-SAT solver only accepts integer values for coefficients, constants, \
                     or variable bounds. Received `",
                    x,
                    "`, which is not an integer. Please round or scale your values to integers.",
                ),
            ),
        );
    }
    match x.floor_to_i64() {
        Some(n) => Ok(n),
        None => Err(out_of_range_error(x)),
    }
}

fn out_of_range_error(x: Float64) -> (error: ResolutionError)
    ensures
        error@ == out_of_range(x),
{
    ResolutionError::Str(
        Message::with_number(
            "The CP-SAT solver value `",
            x,
            "` is out of the i64 range.",
        ),
    )
}

/// Converts a finite bound of an integer variable: a lower bound is rounded up, an upper bound
/// down.
pub fn integer_bound(x: Float64, is_lower: bool) -> (result: Result<i64, ResolutionError>)
    ensures
        crate::error::viewed(result) == bound_of(x, is_lower),
{
    if !x.is_finite() {
        return Err(
            ResolutionError::Str(
                Message::with_number(
                    "The CP-SAT solver requires finite variable bounds. Received `",
                    x,
                    "`, which is not finite.",
                ),
            ),
        );
    }
    let bound = if is_lower { x.ceil_to_i64() } else { x.floor_to_i64() };
    match bound {
        Some(n) => Ok(n),
        None => Err(out_of_range_error(x)),
    }
}

/// Checks that a gap tolerance is non-negative and finite.
pub fn validate_gap(gap: Float64) -> (result: Result<(), MipGapError>)
    ensures
        result == gap_check(gap),
{
    if gap.is_sign_negative() {
        Err(MipGapError::Negative)
    } else if !gap.is_finite() {
        Err(MipGapError::Infinite)
    } else {
        Ok(())
    }
}

/// The verdict on a gap tolerance. A negative zero counts as negative; what is not a number counts
/// by its sign, and as infinite otherwise.
pub open spec fn gap_check(gap: Float64) -> Result<(), MipGapError> {
    if gap.negative() {
        Err(MipGapError::Negative)
    } else if !gap.finite() {
        Err(MipGapError::Infinite)
    } else {
        Ok(())
    }
}

/// How the error for empty bounds speaks of a variable.
pub open spec fn described(name: Seq<char>, index: nat) -> Seq<char> {
    if name.len() == 0 {
        "Invalid bounds for variable (index "@ + crate::error::decimal(index)
            + "): lower bound ("@
    } else {
        "Invalid bounds for variable '"@ + name + "': lower bound ("@
    }
}

/// The error for bounds that no integer lies between.
pub open spec fn empty_bounds(def: VariableDefinition, index: nat) -> ErrorView {
    ErrorView::Str(
        MessageView {
            head: described(def.name@, index),
            tail: seq![(def.min, ") > upper bound ("@), (def.max, ")"@)],
        },
    )
}

/// The error for a variable that is not restricted to integers.
pub open spec fn continuous(name: Seq<char>, index: nat) -> ErrorView {
    ErrorView::Str(
        MessageView::plain(
            "CP-SAT does not support continuous variables. Variable '"@ + name + "' (index "@
                + crate::error::decimal(index)
                + ") was not declared as integer or binary. \
                 Please use `.integer()` or `.binary()` on the variable definition."@,
        ),
    )
}

/// The integer variable that a definition stands for, or the error that it gives.
pub open spec fn domain_of(def: VariableDefinition, index: nat) -> Result<
    IntegerVariableView,
    ErrorView,
> {
    match bound_of(def.min, true) {
        Err(error) => Err(error),
        Ok(lower) => match bound_of(def.max, false) {
            Err(error) => Err(error),
            Ok(upper) => if lower > upper {
                Err(empty_bounds(def, index))
            } else {
                Ok(IntegerVariableView { name: def.name@, lower, upper })
            },
        },
    }
}

/// The integer variables that definitions stand for, or the error of the first definition that
/// gives one.
pub open spec fn domains_of(defs: Seq<VariableDefinition>) -> Result<
    Seq<IntegerVariableView>,
    ErrorView,
>
    decreases defs.len(),
{
    if defs.len() == 0 {
        Ok(Seq::empty())
    } else {
        let index = (defs.len() - 1) as nat;
        match domains_of(defs.drop_last()) {
            Err(error) => Err(error),
            Ok(domains) => if !defs.last().is_integer {
                Err(continuous(defs.last().name@, index))
            } else {
                match domain_of(defs.last(), index) {
                    Err(error) => Err(error),
                    Ok(domain) => Ok(domains.push(domain)),
                }
            },
        }
    }
}

/// The integer terms that terms stand for, or the error of the first coefficient that gives one.
/// Terms with coefficient zero are dropped unless `keep_zeros`.
pub open spec fn terms_of(
    vars: Seq<IntVar>,
    terms: Seq<(Variable, Float64)>,
    keep_zeros: bool,
) -> Result<Seq<(i64, IntVar)>, ErrorView>
    decreases terms.len(),
{
    if terms.len() == 0 {
        Ok(Seq::empty())
    } else {
        match terms_of(vars, terms.drop_last(), keep_zeros) {
            Err(error) => Err(error),
            Ok(converted) => match integer_of(terms.last().1) {
                Err(error) => Err(error),
                Ok(coefficient) => if keep_zeros || coefficient != 0 {
                    Ok(converted.push((coefficient, vars[terms.last().0.index as int])))
                } else {
                    Ok(converted)
                },
            },
        }
    }
}

/// Whether the conversion of terms looks up known variables only: those of the terms before the
/// first coefficient that is no integer, the dropped ones left out.
pub open spec fn terms_known(
    count: nat,
    terms: Seq<(Variable, Float64)>,
    keep_zeros: bool,
) -> bool {
    forall|i: int|
        0 <= i < terms.len() && (forall|j: int|
            0 <= j <= i ==> integer_of((#[trigger] terms[j]).1) is Ok) && (keep_zeros || integer_of(
            terms[i].1,
        ) != Ok::<i64, ErrorView>(0)) ==> (#[trigger] terms[i]).0.index < count
}

/// The integer constraint that a constraint stands for, or the error that it gives.
pub open spec fn constraint_of(vars: Seq<IntVar>, constraint: Constraint) -> Result<
    LinearConstraintView,
    ErrorView,
> {
    match integer_of(constraint.expression.constant.opposite()) {
        Err(error) => Err(error),
        Ok(bound) => match terms_of(
            vars,
            constraint.expression.linear.coefficients@,
            false,
        ) {
            Err(error) => Err(error),
            Ok(terms) => Ok(
                LinearConstraintView {
                    expr: LinearExprView { terms, constant: 0 },
                    relation: if constraint.is_equality {
                        Relation::Equal
                    } else {
                        Relation::AtMost
                    },
                    bound,
                },
            ),
        },
    }
}

/// Whether the conversion of a constraint looks up known variables only.
pub open spec fn constraint_known(count: nat, constraint: Constraint) -> bool {
    integer_of(constraint.expression.constant.opposite()) is Ok ==> terms_known(
        count,
        constraint.expression.linear.coefficients@,
        false,
    )
}

/// The integer objective that an expression stands for, or the error that it gives.
pub open spec fn objective_of(vars: Seq<IntVar>, objective: Expression) -> Result<
    LinearExprView,
    ErrorView,
> {
    match terms_of(vars, objective.linear.coefficients@, true) {
        Err(error) => Err(error),
        Ok(terms) => match integer_of(objective.constant) {
            Err(error) => Err(error),
            Ok(constant) => Ok(LinearExprView { terms, constant }),
        },
    }
}

/// The hints that values stand for: those of the values that are integers.
pub open spec fn hints_of(vars: Seq<IntVar>, values: Seq<(Variable, Float64)>) -> Seq<(IntVar, i64)>
    decreases values.len(),
{
    if values.len() == 0 {
        Seq::empty()
    } else {
        let hints = hints_of(vars, values.drop_last());
        match integer_of(values.last().1) {
            Ok(value) => hints.push((vars[values.last().0.index as int], value)),
            Err(_) => hints,
        }
    }
}

/// Whether hints are given to known variables only; values that are no integers do not count.
pub open spec fn hints_known(count: nat, values: Seq<(Variable, Float64)>) -> bool {
    forall|i: int|
        0 <= i < values.len() && integer_of((#[trigger] values[i]).1) is Ok ==> values[i].0.index
            < count
}

/// The finite initial values of variables.
pub open spec fn initial_values(defs: Seq<VariableDefinition>) -> Seq<(Variable, Float64)>
    decreases defs.len(),
{
    if defs.len() == 0 {
        Seq::empty()
    } else {
        let values = initial_values(defs.drop_last());
        match defs.last().initial {
            Some(value) if value.finite() => values.push(
                (Variable { index: (defs.len() - 1) as usize }, value),
            ),
            _ => values,
        }
    }
}

/// Converts the terms of an expression, dropping those with coefficient zero.
pub fn expr_from_constraint_expression(
    cp_sat_vars: &Vec<IntVar>,
    expression: &Expression,
) -> (result: Result<LinearExpr, ResolutionError>)
    requires
        terms_known(cp_sat_vars@.len(), expression.linear.coefficients@, false),
    ensures
        match terms_of(cp_sat_vars@, expression.linear.coefficients@, false) {
            Ok(terms) => result is Ok && result->Ok_0@ == (LinearExprView { terms, constant: 0 }),
            Err(error) => result is Err && result->Err_0@ == error,
        },
{
    convert_terms(cp_sat_vars, &expression.linear.coefficients, false)
}

/// The error of a part of the terms is the error of all of them.
proof fn lemma_terms_error(
    vars: Seq<IntVar>,
    terms: Seq<(Variable, Float64)>,
    keep_zeros: bool,
    count: int,
)
    requires
        0 <= count <= terms.len(),
        terms_of(vars, terms.take(count), keep_zeros) is Err,
    ensures
        terms_of(vars, terms, keep_zeros) == terms_of(vars, terms.take(count), keep_zeros),
    decreases terms.len() - count,
{
    if count < terms.len() {
        assert(terms.take(count + 1).drop_last() =~= terms.take(count));
        lemma_terms_error(vars, terms, keep_zeros, count + 1);
    } else {
        assert(terms.take(count) =~= terms);
    }
}

/// Terms whose first part could be converted, and the next one too, have a known variable next,
/// unless it is dropped.
pub(crate) proof fn lemma_next_known(
    vars: Seq<IntVar>,
    terms: Seq<(Variable, Float64)>,
    keep_zeros: bool,
    next: int,
)
    requires
        0 <= next < terms.len(),
        terms_known(vars.len(), terms, keep_zeros),
        terms_of(vars, terms.take(next), keep_zeros) is Ok,
        integer_of(terms[next].1) is Ok,
        keep_zeros || integer_of(terms[next].1) != Ok::<i64, ErrorView>(0),
    ensures
        terms[next].0.index < vars.len(),
{
    assert forall|j: int| 0 <= j <= next implies integer_of((#[trigger] terms[j]).1) is Ok by {
        if j < next {
            lemma_term_converted(vars, terms, keep_zeros, next, j);
        }
    }
}

/// Where terms could be converted, each of their coefficients is an integer.
proof fn lemma_term_converted(
    vars: Seq<IntVar>,
    terms: Seq<(Variable, Float64)>,
    keep_zeros: bool,
    count: int,
    j: int,
)
    requires
        0 <= j < count <= terms.len(),
        terms_of(vars, terms.take(count), keep_zeros) is Ok,
    ensures
        integer_of(terms[j].1) is Ok,
    decreases count,
{
    assert(terms.take(count).drop_last() =~= terms.take(count - 1));
    if j < count - 1 {
        lemma_term_converted(vars, terms, keep_zeros, count - 1, j);
    }
}

/// Converts terms.
pub(crate) fn convert_terms(
    cp_sat_vars: &Vec<IntVar>,
    terms: &Vec<(Variable, Float64)>,
    keep_zeros: bool,
) -> (result: Result<LinearExpr, ResolutionError>)
    requires
        terms_known(cp_sat_vars@.len(), terms@, keep_zeros),
    ensures
        match terms_of(cp_sat_vars@, terms@, keep_zeros) {
            Ok(converted) => result is Ok && result->Ok_0@ == (LinearExprView {
                terms: converted,
                constant: 0,
            }),
            Err(error) => result is Err && result->Err_0@ == error,
        },
{
    let mut linear = LinearExpr::new();
    let mut i: usize = 0;
    assert(terms@.take(0) =~= Seq::empty());
    while i < terms.len()
        invariant
            i <= terms.len(),
            terms_known(cp_sat_vars@.len(), terms@, keep_zeros),
            terms_of(cp_sat_vars@, terms@.take(i as int), keep_zeros) == Ok::<
                Seq<(i64, IntVar)>,
                ErrorView,
            >(linear@.terms),
            linear@.constant == 0,
        decreases terms.len() - i,
    {
        let (var, coefficient) = terms[i];
        assert(terms@.take(i + 1).drop_last() =~= terms@.take(i as int));
        match verify_integer(coefficient) {
            Ok(n) => {
                if keep_zeros || n != 0 {
                    proof {
                        lemma_next_known(cp_sat_vars@, terms@, keep_zeros, i as int);
                    }
                    linear.add_term(n, cp_sat_vars[var.index]);
                }
            },
            Err(error) => {
                proof {
                    lemma_terms_error(cp_sat_vars@, terms@, keep_zeros, i + 1);
                }
                return Err(error);
            },
        }
        i = i + 1;
    }
    assert(terms@.take(i as int) =~= terms@);
    Ok(linear)
}

/// Declares in a model the integer variable that a definition stands for.
pub fn create_cp_sat_var(
    model: &mut CpModelBuilder,
    def: &VariableDefinition,
    var: Variable,
) -> (result: Result<IntVar, ResolutionError>)
    ensures
        match domain_of(*def, var.index as nat) {
            Ok(domain) => {
                &&& result is Ok
                &&& result->Ok_0.index == old(model)@.variables.len()
                &&& final(model)@ == (ModelView {
                    variables: old(model)@.variables.push(domain),
                    ..old(model)@
                })
            },
            Err(error) => {
                &&& result is Err
                &&& result->Err_0@ == error
                &&& *final(model) == *old(model)
            },
        },
{
    let lower: i64 = match integer_bound(def.min, true) {
        Ok(n) => n,
        Err(error) => {
            return Err(error);
        },
    };
    let upper: i64 = match integer_bound(def.max, false) {
        Ok(n) => n,
        Err(error) => {
            return Err(error);
        },
    };
    if lower > upper {
        let mut head: String;
        if def.name.as_str().is_empty() {
            head = "Invalid bounds for variable (index ".to_owned();
            head.append(crate::error::decimal_text(var.index).as_str());
            head.append("): lower bound (");
        } else {
            head = "Invalid bounds for variable '".to_owned();
            head.append(def.name.as_str());
            head.append("': lower bound (");
        }
        return Err(
            ResolutionError::Str(
                Message::with_numbers(head, def.min, ") > upper bound (", def.max, ")"),
            ),
        );
    }
    Ok(model.new_int_var(lower, upper, def.name.as_str()))
}

/// The error for a variable that is not restricted to integers.
pub(crate) fn continuous_error(name: &str, index: usize) -> (error: ResolutionError)
    ensures
        error@ == continuous(name@, index as nat),
{
    let mut text: String = "CP-SAT does not support continuous variables. Variable '".to_owned();
    text.append(name);
    text.append("' (index ");
    text.append(crate::error::decimal_text(index).as_str());
    text.append(
        ") was not declared as integer or binary. \
         Please use `.integer()` or `.binary()` on the variable definition.",
    );
    ResolutionError::Str(Message::plain(text))
}

} // verus!
