//! What holds of conversion: which problems and constraints are accepted, what the model of an
//! accepted one holds, and which error a refused one gets.
use vstd::prelude::*;
use vstd::arithmetic::power2::*;
use crate::bridge::ProblemView;
use crate::error::{ErrorView, MipGapError};
use crate::float::{Float64, INFINITY64, SIGN64};
use crate::model::{IntVar, IntegerVariableView, Relation};
use crate::problem::{Constraint, UnsolvedProblem, Variable, VariableDefinition};

verus! {

/// A number converts where it is an integer of 64 bits, to that integer. Otherwise the error says
/// what is wrong with it: it is not finite, it is no integer, or it is an integer out of range.
pub proof fn law_number_conversion(x: Float64)
    ensures
        ({
            let result = crate::convert::integer_of(x);
            let some_integer = exists|n: int| #[trigger] crate::laws::numbers::stands_for(x, n);
            &&& result is Ok <==> crate::laws::numbers::whole(x)
            &&& result is Ok ==> crate::laws::numbers::stands_for(x, result->Ok_0 as int)
            &&& result is Ok ==> result->Ok_0 == x.scaled() / (Float64::one() as int)
            &&& !x.finite() ==> result == Err::<i64, ErrorView>(crate::convert::not_finite(x))
            &&& x.finite() && !some_integer ==> result == Err::<i64, ErrorView>(
                crate::convert::not_an_integer(x),
            )
            &&& some_integer && !crate::laws::numbers::whole(x) ==> result == Err::<i64, ErrorView>(
                crate::convert::out_of_range(x),
            )
        }),
{
    crate::laws::numbers::law_integral(x);
    let result = crate::convert::integer_of(x);
    if result is Ok {
        crate::laws::law_integer_exact(x, result->Ok_0);
        assert(crate::laws::numbers::stands_for(x, result->Ok_0 as int));
    }
    if crate::laws::numbers::whole(x) {
        let n = choose|n: int|
            i64::MIN <= n <= i64::MAX && #[trigger] crate::laws::numbers::stands_for(x, n);
        crate::laws::law_integer_exact(x, n as i64);
    }
}

/// A lower bound converts to the least integer that is not below it, an upper bound to the greatest
/// that is not above it. It is refused where it is not finite, and where that integer has more than
/// 64 bits.
pub proof fn law_bound_conversion(x: Float64, n: int)
    ensures
        ({
            let lower = crate::convert::bound_of(x, true);
            let upper = crate::convert::bound_of(x, false);
            let in_range = i64::MIN <= n <= i64::MAX;
            &&& crate::laws::numbers::least_above(x, n) && in_range ==> lower == Ok::<
                i64,
                ErrorView,
            >(n as i64)
            &&& crate::laws::numbers::greatest_below(x, n) && in_range ==> upper == Ok::<
                i64,
                ErrorView,
            >(n as i64)
            &&& crate::laws::numbers::least_above(x, n) && !in_range ==> lower == Err::<
                i64,
                ErrorView,
            >(crate::convert::out_of_range(x))
            &&& crate::laws::numbers::greatest_below(x, n) && !in_range ==> upper == Err::<
                i64,
                ErrorView,
            >(crate::convert::out_of_range(x))
            &&& lower is Ok ==> crate::laws::numbers::least_above(x, lower->Ok_0 as int)
            &&& upper is Ok ==> crate::laws::numbers::greatest_below(x, upper->Ok_0 as int)
            &&& !x.finite() ==> lower == Err::<i64, ErrorView>(crate::convert::bound_not_finite(x))
            &&& !x.finite() ==> upper == Err::<i64, ErrorView>(crate::convert::bound_not_finite(x))
        }),
{
    if x.finite() {
        crate::laws::law_rounding_keeps_integers(x, n);
        crate::laws::law_rounding_keeps_integers(x, n - 1);
        crate::laws::law_rounding_keeps_integers(x, n + 1);
        crate::laws::law_rounding_keeps_integers(x, x.ceil());
        crate::laws::law_rounding_keeps_integers(x, x.ceil() - 1);
        crate::laws::law_rounding_keeps_integers(x, x.floor());
        crate::laws::law_rounding_keeps_integers(x, x.floor() + 1);
    }
}

/// Every finite number has an integer that it is rounded up to and one that it is rounded down to.
pub proof fn law_bounds_exist(x: Float64)
    requires
        x.finite(),
    ensures
        exists|n: int| #[trigger] crate::laws::numbers::least_above(x, n),
        exists|n: int| #[trigger] crate::laws::numbers::greatest_below(x, n),
{
    crate::laws::law_rounding_keeps_integers(x, x.ceil());
    crate::laws::law_rounding_keeps_integers(x, x.ceil() - 1);
    crate::laws::law_rounding_keeps_integers(x, x.floor());
    crate::laws::law_rounding_keeps_integers(x, x.floor() + 1);
    assert(crate::laws::numbers::least_above(x, x.ceil()));
    assert(crate::laws::numbers::greatest_below(x, x.floor()));
}

/// A gap tolerance is accepted where its pattern lies below that of infinity. One with the sign bit
/// set is negative, and any other that is refused is infinite.
pub proof fn law_gap_tolerance(gap: Float64)
    ensures
        crate::convert::gap_check(gap) is Ok <==> gap.bits < INFINITY64,
        crate::convert::gap_check(gap) == Err::<(), MipGapError>(MipGapError::Negative)
            <==> gap.bits >= SIGN64,
        crate::convert::gap_check(gap) == Err::<(), MipGapError>(MipGapError::Infinite)
            <==> INFINITY64 <= gap.bits < SIGN64,
{
}

/// Whether a definition can be converted: it is one of an integer variable, its bounds are finite
/// and round to integers of 64 bits, the lower of which is not above the upper one.
pub open spec fn acceptable(def: VariableDefinition) -> bool {
    def.is_integer && has_domain(def)
}

/// Whether bounds are finite and round to integers of 64 bits, the lower of which is not above the
/// upper one.
pub open spec fn has_domain(def: VariableDefinition) -> bool {
    exists|lower: int, upper: int|
        #![trigger crate::laws::numbers::least_above(def.min, lower),
            crate::laws::numbers::greatest_below(def.max, upper)]
        {
            &&& crate::laws::numbers::least_above(def.min, lower)
            &&& crate::laws::numbers::greatest_below(def.max, upper)
            &&& i64::MIN <= lower <= upper <= i64::MAX
        }
}

/// A definition gives a variable of its name whose domain is that of its bounds. Where there is no
/// such domain the lower bound is named if it is at fault by itself, else the upper bound, else
/// both.
pub proof fn law_definition_conversion(def: VariableDefinition, index: nat)
    ensures
        ({
            let result = crate::convert::domain_of(def, index);
            let lower = crate::convert::bound_of(def.min, true);
            let upper = crate::convert::bound_of(def.max, false);
            &&& result is Ok <==> has_domain(def)
            &&& result is Ok ==> {
                &&& result->Ok_0.name == def.name@
                &&& crate::laws::numbers::least_above(def.min, result->Ok_0.lower as int)
                &&& crate::laws::numbers::greatest_below(def.max, result->Ok_0.upper as int)
            }
            &&& lower is Err ==> result == Err::<IntegerVariableView, ErrorView>(lower->Err_0)
            &&& lower is Ok && upper is Err ==> result == Err::<IntegerVariableView, ErrorView>(
                upper->Err_0,
            )
            &&& lower is Ok && upper is Ok && lower->Ok_0 > upper->Ok_0 ==> result == Err::<
                IntegerVariableView,
                ErrorView,
            >(crate::convert::empty_bounds(def, index))
        }),
{
    law_bound_conversion(def.min, 0);
    law_bound_conversion(def.max, 0);
    let result = crate::convert::domain_of(def, index);
    if result is Ok {
        assert(crate::laws::numbers::least_above(def.min, result->Ok_0.lower as int)
            && crate::laws::numbers::greatest_below(def.max, result->Ok_0.upper as int));
    }
    if has_domain(def) {
        let (lower, upper) = choose|lower: int, upper: int|
            #![trigger crate::laws::numbers::least_above(def.min, lower),
                crate::laws::numbers::greatest_below(def.max, upper)]
            {
                &&& crate::laws::numbers::least_above(def.min, lower)
                &&& crate::laws::numbers::greatest_below(def.max, upper)
                &&& i64::MIN <= lower <= upper <= i64::MAX
            };
        law_bound_conversion(def.min, lower);
        law_bound_conversion(def.max, upper);
    }
}

/// The variables of a problem are accepted where each of them is. Each gives the variable of the
/// model at its position. Otherwise the error is that of the first one that is not accepted.
pub proof fn law_definitions_conversion(defs: Seq<VariableDefinition>)
    ensures
        ({
            let result = crate::convert::domains_of(defs);
            &&& result is Ok <==> forall|i: int| 0 <= i < defs.len() ==> acceptable(#[trigger] defs[i])
            &&& result is Ok ==> {
                &&& result->Ok_0.len() == defs.len()
                &&& forall|i: int|
                    #![trigger defs[i]]
                    #![trigger result->Ok_0[i]]
                    0 <= i < defs.len() ==> {
                        &&& result->Ok_0[i].name == defs[i].name@
                        &&& crate::laws::numbers::least_above(
                            defs[i].min,
                            result->Ok_0[i].lower as int,
                        )
                        &&& crate::laws::numbers::greatest_below(
                            defs[i].max,
                            result->Ok_0[i].upper as int,
                        )
                    }
            }
            &&& forall|i: int|
                0 <= i < defs.len() && !acceptable(#[trigger] defs[i]) && (forall|j: int|
                    0 <= j < i ==> acceptable(#[trigger] defs[j])) ==> result == Err::<
                    Seq<IntegerVariableView>,
                    ErrorView,
                >(
                    if defs[i].is_integer {
                        crate::convert::domain_of(defs[i], i as nat)->Err_0
                    } else {
                        crate::convert::continuous(defs[i].name@, i as nat)
                    },
                )
        }),
    decreases defs.len(),
{
    let result = crate::convert::domains_of(defs);
    if defs.len() > 0 {
        let before = defs.drop_last();
        let last = defs.len() - 1;
        let shorter = crate::convert::domains_of(before);
        law_definitions_conversion(before);
        law_definition_conversion(defs[last], last as nat);
        assert(forall|i: int| 0 <= i < last ==> before[i] == defs[i]);
        assert(defs.last() == defs[last]);
        if result is Ok {
            assert forall|i: int| 0 <= i < defs.len() implies acceptable(#[trigger] defs[i]) by {
                if i < last {
                    assert(acceptable(before[i]));
                }
            }
            assert forall|i: int|
                #![trigger defs[i]]
                #![trigger result->Ok_0[i]]
                0 <= i < defs.len() implies {
                &&& result->Ok_0[i].name == defs[i].name@
                &&& crate::laws::numbers::least_above(defs[i].min, result->Ok_0[i].lower as int)
                &&& crate::laws::numbers::greatest_below(defs[i].max, result->Ok_0[i].upper as int)
            } by {
                if i < last {
                    assert(before[i] == defs[i]);
                    assert(result->Ok_0[i] == shorter->Ok_0[i]);
                }
            }
        }
        if forall|i: int| 0 <= i < defs.len() ==> acceptable(#[trigger] defs[i]) {
            assert forall|i: int| 0 <= i < before.len() implies acceptable(
                #[trigger] before[i],
            ) by {
                assert(acceptable(defs[i]));
            }
            assert(acceptable(defs[last]));
        }
        assert forall|i: int|
            0 <= i < defs.len() && !acceptable(#[trigger] defs[i]) && (forall|j: int|
                0 <= j < i ==> acceptable(#[trigger] defs[j])) implies result == Err::<
            Seq<IntegerVariableView>,
            ErrorView,
        >(
            if defs[i].is_integer {
                crate::convert::domain_of(defs[i], i as nat)->Err_0
            } else {
                crate::convert::continuous(defs[i].name@, i as nat)
            },
        ) by {
            assert forall|j: int| 0 <= j < i implies acceptable(#[trigger] before[j]) by {
                assert(acceptable(defs[j]));
            }
            if i < last {
                assert(!acceptable(before[i]));
            }
        }
    }
}

/// The integer that a number is.
pub open spec fn integer(x: Float64) -> i64 {
    (x.scaled() / (Float64::one() as int)) as i64
}

/// The terms with a coefficient that is not zero.
pub open spec fn nonzero_terms() -> spec_fn((Variable, Float64)) -> bool {
    |term: (Variable, Float64)| term.1.scaled() != 0
}

/// The values that are integers of 64 bits.
pub open spec fn whole_values() -> spec_fn((Variable, Float64)) -> bool {
    |value: (Variable, Float64)| crate::laws::numbers::whole(value.1)
}

/// The term of a model for a term.
pub open spec fn as_term(vars: Seq<IntVar>) -> spec_fn((Variable, Float64)) -> (i64, IntVar) {
    |term: (Variable, Float64)| (integer(term.1), vars[term.0.index as int])
}

/// The hint of a model for a value.
pub open spec fn as_hint(vars: Seq<IntVar>) -> spec_fn((Variable, Float64)) -> (IntVar, i64) {
    |value: (Variable, Float64)| (vars[value.0.index as int], integer(value.1))
}

/// Whether all the coefficients are integers of 64 bits.
pub open spec fn all_whole(terms: Seq<(Variable, Float64)>) -> bool {
    forall|i: int| 0 <= i < terms.len() ==> crate::laws::numbers::whole((#[trigger] terms[i]).1)
}

/// Whether the coefficient at `i` is the first that is no integer of 64 bits.
pub open spec fn first_broken(terms: Seq<(Variable, Float64)>, i: int) -> bool {
    &&& 0 <= i < terms.len()
    &&& !crate::laws::numbers::whole(terms[i].1)
    &&& forall|j: int| 0 <= j < i ==> crate::laws::numbers::whole((#[trigger] terms[j]).1)
}

/// Taking out elements and mapping the others, one element more.
proof fn lemma_filter_map_last<A, B>(s: Seq<A>, keep: spec_fn(A) -> bool, f: spec_fn(A) -> B)
    requires
        s.len() > 0,
    ensures
        s.filter(keep).map_values(f) == if keep(s.last()) {
            s.drop_last().filter(keep).map_values(f).push(f(s.last()))
        } else {
            s.drop_last().filter(keep).map_values(f)
        },
{
    reveal(Seq::filter);
    let before = s.drop_last().filter(keep);
    assert(before.push(s.last()).map_values(f) =~= before.map_values(f).push(f(s.last())));
}

/// Terms are accepted where all their coefficients are integers of 64 bits. They keep their order;
/// those with coefficient zero are left out unless they are to be kept. Otherwise the error is that
/// of the first coefficient that is not accepted.
pub proof fn law_terms_conversion(vars: Seq<IntVar>, terms: Seq<(Variable, Float64)>)
    ensures
        ({
            let kept = crate::convert::terms_of(vars, terms, true);
            let dropped = crate::convert::terms_of(vars, terms, false);
            &&& kept is Ok <==> all_whole(terms)
            &&& dropped is Ok <==> all_whole(terms)
            &&& all_whole(terms) ==> kept->Ok_0 == terms.map_values(as_term(vars))
            &&& all_whole(terms) ==> dropped->Ok_0 == terms.filter(nonzero_terms()).map_values(
                as_term(vars),
            )
            &&& forall|i: int| #[trigger]
                first_broken(terms, i) ==> {
                    let error = crate::convert::integer_of(terms[i].1)->Err_0;
                    &&& kept == Err::<Seq<(i64, IntVar)>, ErrorView>(error)
                    &&& dropped == Err::<Seq<(i64, IntVar)>, ErrorView>(error)
                }
        }),
    decreases terms.len(),
{
    if terms.len() == 0 {
        reveal(Seq::filter);
        assert(terms.map_values(as_term(vars)) =~= Seq::empty());
        assert(terms.filter(nonzero_terms()).map_values(as_term(vars)) =~= Seq::empty());
    } else {
        let before = terms.drop_last();
        let last = terms.len() - 1;
        law_terms_conversion(vars, before);
        law_number_conversion(terms.last().1);
        lemma_whole_prefix(terms);
        lemma_filter_map_last(terms, nonzero_terms(), as_term(vars));
        assert(terms.map_values(as_term(vars)) =~= before.map_values(as_term(vars)).push(
            as_term(vars)(terms.last()),
        ));
        let x = terms.last().1;
        if crate::laws::numbers::whole(x) {
            lemma_zero(x, crate::convert::integer_of(x)->Ok_0 as int);
        }
        assert forall|i: int| #[trigger] first_broken(terms, i) implies {
            let error = crate::convert::integer_of(terms[i].1)->Err_0;
            &&& crate::convert::terms_of(vars, terms, true) == Err::<
                Seq<(i64, IntVar)>,
                ErrorView,
            >(error)
            &&& crate::convert::terms_of(vars, terms, false) == Err::<
                Seq<(i64, IntVar)>,
                ErrorView,
            >(error)
        } by {
            if i < last {
                assert(before[i] == terms[i]);
                assert forall|j: int| 0 <= j < i implies crate::laws::numbers::whole(
                    (#[trigger] before[j]).1,
                ) by {
                    assert(before[j] == terms[j]);
                }
                assert(first_broken(before, i));
            } else {
                assert forall|j: int| 0 <= j < before.len() implies crate::laws::numbers::whole(
                    (#[trigger] before[j]).1,
                ) by {
                    assert(before[j] == terms[j]);
                }
            }
        }
    }
}

/// Coefficients are all integers where all but the last are, and the last is.
proof fn lemma_whole_prefix(terms: Seq<(Variable, Float64)>)
    requires
        terms.len() > 0,
    ensures
        all_whole(terms) <==> all_whole(terms.drop_last()) && crate::laws::numbers::whole(
            terms.last().1,
        ),
{
    let before = terms.drop_last();
    if all_whole(terms) {
        assert forall|i: int| 0 <= i < before.len() implies crate::laws::numbers::whole(
            (#[trigger] before[i]).1,
        ) by {
            assert(before[i] == terms[i]);
        }
        assert(terms[terms.len() - 1] == terms.last());
    }
    if all_whole(before) && crate::laws::numbers::whole(terms.last().1) {
        assert forall|i: int| 0 <= i < terms.len() implies crate::laws::numbers::whole(
            (#[trigger] terms[i]).1,
        ) by {
            if i < before.len() {
                assert(before[i] == terms[i]);
            }
        }
    }
}

proof fn lemma_zero(x: Float64, n: int)
    requires
        crate::laws::numbers::stands_for(x, n),
    ensures
        x.scaled() == 0 <==> n == 0,
{
    lemma_pow2_pos(1074);
    let one = Float64::one();
    assert(n * one == 0 <==> n == 0) by (nonlinear_arith)
        requires
            one > 0,
    ;
}

/// Values give one hint each, in their order, where they are integers of 64 bits, zero included.
/// They give no others.
pub proof fn law_hints_conversion(vars: Seq<IntVar>, values: Seq<(Variable, Float64)>)
    ensures
        crate::convert::hints_of(vars, values) == values.filter(whole_values()).map_values(
            as_hint(vars),
        ),
        forall|i: int|
            0 <= i < values.len() && crate::laws::numbers::whole((#[trigger] values[i]).1)
                ==> crate::convert::hints_of(vars, values).contains(
                (vars[values[i].0.index as int], integer(values[i].1)),
            ),
    decreases values.len(),
{
    let hints = crate::convert::hints_of(vars, values);
    if values.len() == 0 {
        reveal(Seq::filter);
        assert(values.filter(whole_values()).map_values(as_hint(vars)) =~= Seq::empty());
    } else {
        let before = values.drop_last();
        let shorter = crate::convert::hints_of(vars, before);
        law_hints_conversion(vars, before);
        law_number_conversion(values.last().1);
        lemma_filter_map_last(values, whole_values(), as_hint(vars));
        assert forall|i: int|
            0 <= i < values.len() && crate::laws::numbers::whole(
                (#[trigger] values[i]).1,
            ) implies hints.contains((vars[values[i].0.index as int], integer(values[i].1))) by {
            let hint = (vars[values[i].0.index as int], integer(values[i].1));
            if i < before.len() {
                assert(before[i] == values[i]);
                assert(shorter.contains(hint));
                let k = choose|k: int| 0 <= k < shorter.len() && shorter[k] == hint;
                assert(hints[k] == hint);
            } else {
                assert(hints[hints.len() - 1] == hint);
            }
        }
    }
}

/// Definitions with their positions.
pub open spec fn placed(defs: Seq<VariableDefinition>) -> Seq<(int, VariableDefinition)> {
    Seq::new(defs.len(), |i: int| (i, defs[i]))
}

/// The definitions whose initial value is an integer of 64 bits.
pub open spec fn with_whole_initial() -> spec_fn((int, VariableDefinition)) -> bool {
    |def: (int, VariableDefinition)|
        def.1.initial is Some && crate::laws::numbers::whole(def.1.initial->0)
}

/// The hint for the initial value of a definition.
pub open spec fn as_initial_hint() -> spec_fn((int, VariableDefinition)) -> (IntVar, i64) {
    |def: (int, VariableDefinition)|
        (IntVar { index: def.0 as usize }, integer(def.1.initial->0))
}

/// Each variable whose initial value is an integer of 64 bits gives a hint of that value, in the
/// order of the variables. There are no others.
pub proof fn law_initial_values_conversion(count: nat, defs: Seq<VariableDefinition>)
    requires
        defs.len() <= count <= usize::MAX,
    ensures
        crate::convert::hints_of(
            crate::bridge::all_vars(count),
            crate::convert::initial_values(defs),
        ) == placed(defs).filter(with_whole_initial()).map_values(as_initial_hint()),
    decreases defs.len(),
{
    let vars = crate::bridge::all_vars(count);
    if defs.len() == 0 {
        reveal(Seq::filter);
        assert(placed(defs).filter(with_whole_initial()).map_values(as_initial_hint())
            =~= Seq::empty());
    } else {
        let before = defs.drop_last();
        law_initial_values_conversion(count, before);
        assert(placed(defs).drop_last() =~= placed(before));
        lemma_filter_map_last(placed(defs), with_whole_initial(), as_initial_hint());
        if defs.last().initial is Some {
            let x = defs.last().initial->0;
            law_number_conversion(x);
            if x.finite() {
                let values = crate::convert::initial_values(before);
                let added = (Variable { index: (defs.len() - 1) as usize }, x);
                assert(values.push(added).drop_last() =~= values);
            }
        }
    }
}

/// The term of a model for a term, the variable being that of the same position.
pub open spec fn as_placed_term() -> spec_fn((Variable, Float64)) -> (i64, IntVar) {
    |term: (Variable, Float64)| (integer(term.1), IntVar { index: term.0.index })
}

/// The hint of a model for a value, the variable being that of the same position.
pub open spec fn as_placed_hint() -> spec_fn((Variable, Float64)) -> (IntVar, i64) {
    |value: (Variable, Float64)| (IntVar { index: value.0.index }, integer(value.1))
}

/// Terms that look up known variables look up the variables of the same position.
proof fn lemma_placed_terms(count: nat, terms: Seq<(Variable, Float64)>, keep_zeros: bool)
    requires
        count <= usize::MAX,
        all_whole(terms),
        crate::convert::terms_known(count, terms, keep_zeros),
    ensures
        ({
            let vars = crate::bridge::all_vars(count);
            let taken = if keep_zeros {
                terms
            } else {
                terms.filter(nonzero_terms())
            };
            taken.map_values(as_term(vars)) == taken.map_values(as_placed_term())
        }),
{
    let vars = crate::bridge::all_vars(count);
    let taken = if keep_zeros {
        terms
    } else {
        terms.filter(nonzero_terms())
    };
    assert forall|i: int| 0 <= i < terms.len() && (keep_zeros || nonzero_terms()(
        terms[i],
    )) implies (#[trigger] terms[i]).0.index < count by {
        assert forall|j: int| 0 <= j <= i implies crate::convert::integer_of(
            (#[trigger] terms[j]).1,
        ) is Ok by {
            law_number_conversion(terms[j].1);
        }
        law_number_conversion(terms[i].1);
        lemma_zero(terms[i].1, crate::convert::integer_of(terms[i].1)->Ok_0 as int);
    }
    assert forall|k: int| 0 <= k < taken.len() implies as_term(vars)(#[trigger] taken[k])
        == as_placed_term()(taken[k]) by {
        if !keep_zeros {
            terms.lemma_filter_pred(nonzero_terms(), k);
            assert(taken.contains(taken[k]));
            terms.lemma_filter_contains_rev(nonzero_terms(), taken[k]);
        }
        let i = choose|i: int| 0 <= i < terms.len() && terms[i] == taken[k];
        if keep_zeros {
            assert(terms[k].0.index < count);
        } else {
            assert(terms[i].0.index < count);
        }
    }
    assert(taken.map_values(as_term(vars)) =~= taken.map_values(as_placed_term()));
}

/// Hints for known variables are for the variables of the same position.
proof fn lemma_placed_hints(count: nat, values: Seq<(Variable, Float64)>)
    requires
        count <= usize::MAX,
        crate::convert::hints_known(count, values),
    ensures
        ({
            let taken = values.filter(whole_values());
            taken.map_values(as_hint(crate::bridge::all_vars(count))) == taken.map_values(
                as_placed_hint(),
            )
        }),
{
    let vars = crate::bridge::all_vars(count);
    let taken = values.filter(whole_values());
    assert forall|k: int| 0 <= k < taken.len() implies as_hint(vars)(#[trigger] taken[k])
        == as_placed_hint()(taken[k]) by {
        values.lemma_filter_pred(whole_values(), k);
        assert(taken.contains(taken[k]));
        values.lemma_filter_contains_rev(whole_values(), taken[k]);
        let i = choose|i: int| 0 <= i < values.len() && values[i] == taken[k];
        law_number_conversion(values[i].1);
        assert(values[i].0.index < count);
    }
    assert(taken.map_values(as_hint(vars)) =~= taken.map_values(as_placed_hint()));
}

/// Whether a problem can be converted: all its variables are acceptable, and the coefficients and
/// the constant of its objective are integers of 64 bits. Names do not matter, nor do initial values.
pub open spec fn convertible(problem: UnsolvedProblem) -> bool {
    &&& forall|i: int|
        0 <= i < problem.variables@.len() ==> acceptable(#[trigger] problem.variables@[i])
    &&& all_whole(problem.objective.linear.coefficients@)
    &&& crate::laws::numbers::whole(problem.objective.constant)
}

/// A problem is accepted exactly where it can be converted. No parameter is set and no constraint
/// is counted in either case.
pub proof fn law_problem_acceptance(problem: UnsolvedProblem)
    ensures
        ({
            let converted = crate::bridge::converted(problem);
            &&& converted.state is Valid <==> convertible(problem)
            &&& converted.next_index() == 0
            &&& converted.params.log_search_progress is None
            &&& converted.params.log_to_response is None
            &&& converted.params.num_search_workers is None
            &&& converted.params.random_seed is None
            &&& converted.params.fill_additional_solutions_in_response is None
            &&& converted.params.max_time_in_seconds is None
            &&& converted.params.max_deterministic_time is None
            &&& converted.params.absolute_gap_limit is None
            &&& converted.params.relative_gap_limit is None
        }),
{
    let defs = problem.variables@;
    law_definitions_conversion(defs);
    if crate::convert::domains_of(defs) is Ok {
        law_terms_conversion(
            crate::bridge::all_vars(crate::convert::domains_of(defs)->Ok_0.len()),
            problem.objective.linear.coefficients@,
        );
        law_number_conversion(problem.objective.constant);
    }
}

/// The model of an accepted problem has a variable for each of the problem's, of its name and with
/// the integers within its bounds; the objective, term by term and with its constant; no
/// constraints; and a hint for each initial value that is an integer.
pub proof fn law_problem_conversion(problem: UnsolvedProblem)
    requires
        problem.variables@.len() <= usize::MAX,
        convertible(problem),
        crate::convert::terms_known(
            problem.variables@.len(),
            problem.objective.linear.coefficients@,
            true,
        ),
    ensures
        ({
            let defs = problem.variables@;
            let state = crate::bridge::converted(problem).state;
            let model = state->model;
            let expr = model.objective->0.expr;
            &&& state is Valid
            &&& state->vars == Seq::new(defs.len(), |i: int| IntVar { index: i as usize })
            &&& model.variables.len() == defs.len()
            &&& forall|i: int|
                #![trigger defs[i]]
                #![trigger model.variables[i]]
                0 <= i < defs.len() ==> {
                    &&& model.variables[i].name == defs[i].name@
                    &&& crate::laws::numbers::least_above(
                        defs[i].min,
                        model.variables[i].lower as int,
                    )
                    &&& crate::laws::numbers::greatest_below(
                        defs[i].max,
                        model.variables[i].upper as int,
                    )
                }
            &&& model.objective is Some
            &&& model.objective->0.direction == problem.direction
            &&& expr.terms == problem.objective.linear.coefficients@.map_values(as_placed_term())
            &&& crate::laws::numbers::stands_for(problem.objective.constant, expr.constant as int)
            &&& model.constraints.len() == 0
            &&& model.hints == placed(defs).filter(with_whole_initial()).map_values(
                as_initial_hint(),
            )
        }),
{
    let defs = problem.variables@;
    law_problem_acceptance(problem);
    law_definitions_conversion(defs);
    let vars = crate::bridge::all_vars(defs.len());
    let terms = problem.objective.linear.coefficients@;
    law_terms_conversion(vars, terms);
    lemma_placed_terms(defs.len(), terms, true);
    law_number_conversion(problem.objective.constant);
    law_initial_values_conversion(defs.len(), defs);
    assert(vars =~= Seq::new(defs.len(), |i: int| IntVar { index: i as usize }));
}

/// A problem that cannot be converted gets the error of its first variable that is not acceptable;
/// else that of the first coefficient of its objective that is no integer; else that of its constant.
pub proof fn law_problem_error(problem: UnsolvedProblem)
    requires
        !convertible(problem),
    ensures
        ({
            let defs = problem.variables@;
            let terms = problem.objective.linear.coefficients@;
            let reason = crate::bridge::converted(problem).state->reason;
            let all_acceptable = forall|i: int|
                0 <= i < defs.len() ==> acceptable(#[trigger] defs[i]);
            &&& forall|i: int|
                0 <= i < defs.len() && !acceptable(#[trigger] defs[i]) && (forall|j: int|
                    0 <= j < i ==> acceptable(#[trigger] defs[j])) ==> reason
                    == if defs[i].is_integer {
                    crate::convert::domain_of(defs[i], i as nat)->Err_0
                } else {
                    crate::convert::continuous(defs[i].name@, i as nat)
                }
            &&& all_acceptable ==> forall|i: int| #[trigger]
                first_broken(terms, i) ==> reason == crate::convert::integer_of(terms[i].1)->Err_0
            &&& all_acceptable && all_whole(terms) ==> reason == crate::convert::integer_of(
                problem.objective.constant,
            )->Err_0
        }),
{
    let defs = problem.variables@;
    law_problem_acceptance(problem);
    law_definitions_conversion(defs);
    law_number_conversion(problem.objective.constant);
    if crate::convert::domains_of(defs) is Ok {
        law_terms_conversion(
            crate::bridge::all_vars(crate::convert::domains_of(defs)->Ok_0.len()),
            problem.objective.linear.coefficients@,
        );
    }
}

/// Whether a constraint can be converted: the negative of its constant and all its coefficients are
/// integers of 64 bits.
pub open spec fn convertible_constraint(constraint: Constraint) -> bool {
    &&& crate::laws::numbers::whole(constraint.expression.constant.opposite())
    &&& all_whole(constraint.expression.linear.coefficients@)
}

/// Adding a constraint leaves a valid problem valid exactly where the constraint can be converted.
/// It then comes last among the constraints, with its terms but for those of coefficient zero, and
/// the negative of its constant as its bound. Nothing else changes.
pub proof fn law_constraint_conversion(problem: ProblemView, constraint: Constraint)
    requires
        problem.wf(),
        problem.state is Valid,
        crate::convert::constraint_known(problem.state->vars.len(), constraint),
    ensures
        ({
            let before = problem.state->model;
            let after = problem.with_constraint(constraint);
            let model = after.state->model;
            let added = model.constraints.last();
            let constant = constraint.expression.constant;
            let terms = constraint.expression.linear.coefficients@;
            &&& after.params == problem.params
            &&& after.state is Valid <==> convertible_constraint(constraint)
            &&& after.state is Valid ==> {
                &&& after.state->vars == problem.state->vars
                &&& model.variables == before.variables
                &&& model.objective == before.objective
                &&& model.hints == before.hints
                &&& model.constraints.len() == before.constraints.len() + 1
                &&& model.constraints.drop_last() == before.constraints
                &&& added.relation == Relation::Equal <==> constraint.is_equality
                &&& added.relation == Relation::AtMost <==> !constraint.is_equality
                &&& constant.scaled() == -(added.bound * Float64::one())
                &&& added.expr.constant == 0
                &&& added.expr.terms == terms.filter(nonzero_terms()).map_values(as_placed_term())
            }
        }),
{
    let count = problem.state->vars.len();
    let terms = constraint.expression.linear.coefficients@;
    let constant = constraint.expression.constant;
    law_number_conversion(constant.opposite());
    crate::laws::numbers::law_opposite(constant);
    law_terms_conversion(problem.state->vars, terms);
    if convertible_constraint(constraint) {
        lemma_placed_terms(count, terms, false);
        let after = problem.with_constraint(constraint).state->model;
        assert(after.constraints.drop_last() =~= problem.state->model.constraints);
    }
}

/// A constraint that cannot be converted puts a valid problem in error: with the error of the
/// negative of its constant, else that of its first coefficient that is no integer. The counter
/// goes on behind the constraint.
pub proof fn law_constraint_error(problem: ProblemView, constraint: Constraint)
    requires
        problem.state is Valid,
        problem.state->model.constraints.len() < usize::MAX,
        !convertible_constraint(constraint),
    ensures
        ({
            let after = problem.with_constraint(constraint);
            let constant = constraint.expression.constant.opposite();
            let terms = constraint.expression.linear.coefficients@;
            &&& after.state is Invalid
            &&& after.params == problem.params
            &&& after.state->next_constraint_index == problem.state->model.constraints.len() + 1
            &&& !crate::laws::numbers::whole(constant) ==> after.state->reason
                == crate::convert::integer_of(constant)->Err_0
            &&& crate::laws::numbers::whole(constant) ==> forall|i: int| #[trigger]
                first_broken(terms, i) ==> after.state->reason == crate::convert::integer_of(
                    terms[i].1,
                )->Err_0
        }),
{
    law_number_conversion(constraint.expression.constant.opposite());
    law_terms_conversion(problem.state->vars, constraint.expression.linear.coefficients@);
}

/// In error a constraint only moves the counter on.
pub proof fn law_constraint_in_error(problem: ProblemView, constraint: Constraint)
    requires
        problem.state is Invalid,
        problem.state->next_constraint_index < usize::MAX,
    ensures
        ({
            let after = problem.with_constraint(constraint);
            &&& after.params == problem.params
            &&& after.state is Invalid
            &&& after.state->reason == problem.state->reason
            &&& after.state->next_constraint_index == problem.state->next_constraint_index + 1
        }),
{
}

/// Giving values adds a hint for each that is an integer of 64 bits, zero included, in their order,
/// after the hints that were there. Nothing else changes.
pub proof fn law_hints_are_added(problem: ProblemView, values: Seq<(Variable, Float64)>)
    requires
        problem.wf(),
        problem.state is Valid,
        crate::convert::hints_known(problem.state->vars.len(), values),
    ensures
        ({
            let before = problem.state->model;
            let after = problem.with_hints(values);
            let model = after.state->model;
            &&& after.params == problem.params
            &&& after.state is Valid
            &&& after.state->vars == problem.state->vars
            &&& model.variables == before.variables
            &&& model.objective == before.objective
            &&& model.constraints == before.constraints
            &&& model.hints == before.hints + values.filter(whole_values()).map_values(
                as_placed_hint(),
            )
            &&& forall|i: int|
                0 <= i < values.len() && crate::laws::numbers::whole((#[trigger] values[i]).1)
                    ==> model.hints.contains(
                    (IntVar { index: values[i].0.index }, integer(values[i].1)),
                )
        }),
{
    let vars = problem.state->vars;
    let before = problem.state->model.hints;
    let added = crate::convert::hints_of(vars, values);
    law_hints_conversion(vars, values);
    lemma_placed_hints(vars.len(), values);
    assert forall|i: int|
        0 <= i < values.len() && crate::laws::numbers::whole(
            (#[trigger] values[i]).1,
        ) implies (before + added).contains(
        (IntVar { index: values[i].0.index }, integer(values[i].1)),
    ) by {
        law_number_conversion(values[i].1);
        let hint = (IntVar { index: values[i].0.index }, integer(values[i].1));
        assert(added.contains(hint));
        let k = choose|k: int| 0 <= k < added.len() && added[k] == hint;
        assert((before + added)[before.len() + k] == hint);
    }
}

/// Dropping hints drops all of them and nothing else.
pub proof fn law_hints_are_dropped(problem: ProblemView)
    requires
        problem.state is Valid,
    ensures
        ({
            let before = problem.state->model;
            let after = problem.without_hints();
            let model = after.state->model;
            &&& after.params == problem.params
            &&& after.state is Valid
            &&& after.state->vars == problem.state->vars
            &&& model.variables == before.variables
            &&& model.objective == before.objective
            &&& model.constraints == before.constraints
            &&& model.hints.len() == 0
        }),
{
}

/// The error of a problem is always a message: that no assignment satisfies a problem, or that its
/// objective has no limit, is never said of a problem that the solver has not seen.
pub proof fn law_error_is_a_message(problem: UnsolvedProblem, constraints: Seq<Constraint>)
    ensures
        ({
            let state = crate::laws::with_constraints(
                crate::bridge::converted(problem),
                constraints,
            ).state;
            state is Invalid ==> state->reason is Str
        }),
    decreases constraints.len(),
{
    let start = crate::bridge::converted(problem);
    if constraints.len() == 0 {
        if !convertible(problem) {
            law_problem_acceptance(problem);
            lemma_domains_message(problem.variables@);
            if crate::convert::domains_of(problem.variables@) is Ok {
                lemma_terms_message(
                    crate::bridge::all_vars(
                        crate::convert::domains_of(problem.variables@)->Ok_0.len(),
                    ),
                    problem.objective.linear.coefficients@,
                    true,
                );
            }
        } else {
            law_problem_acceptance(problem);
        }
    } else {
        let before = crate::laws::with_constraints(start, constraints.drop_last());
        law_error_is_a_message(problem, constraints.drop_last());
        if before.state is Valid {
            lemma_terms_message(
                before.state->vars,
                constraints.last().expression.linear.coefficients@,
                false,
            );
        }
    }
}

proof fn lemma_domains_message(defs: Seq<VariableDefinition>)
    ensures
        crate::convert::domains_of(defs) is Err ==> crate::convert::domains_of(defs)->Err_0 is Str,
    decreases defs.len(),
{
    if defs.len() > 0 {
        lemma_domains_message(defs.drop_last());
    }
}

proof fn lemma_terms_message(
    vars: Seq<IntVar>,
    terms: Seq<(Variable, Float64)>,
    keep_zeros: bool,
)
    ensures
        crate::convert::terms_of(vars, terms, keep_zeros) is Err ==> crate::convert::terms_of(
            vars,
            terms,
            keep_zeros,
        )->Err_0 is Str,
    decreases terms.len(),
{
    if terms.len() > 0 {
        lemma_terms_message(vars, terms.drop_last(), keep_zeros);
    }
}

} // verus!
