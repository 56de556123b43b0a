//! What holds of messages: what they say, which numbers they quote, and how they are written.
use vstd::prelude::*;
use crate::error::{ErrorView, Message, MessageView, ResolutionError};
use crate::float::Float64;
use crate::problem::VariableDefinition;

verus! {

/// A message that quotes a number between two texts.
pub open spec fn quoting(head: Seq<char>, x: Float64, rest: Seq<char>) -> ErrorView {
    ErrorView::Str(MessageView { head, tail: seq![(x, rest)] })
}

/// A message about a number quotes that number, between the same texts whatever it is.
pub proof fn law_number_messages(x: Float64)
    ensures
        crate::convert::not_finite(x) == quoting(
            "The CP-SAT solver does not accept infinite values for coefficients, constants, \
             or variable bounds. Received `"@,
            x,
            "`, which is not finite."@,
        ),
        crate::convert::not_an_integer(x) == quoting(
            "The CP-SAT solver only accepts integer values for coefficients, constants, \
             or variable bounds. Received `"@,
            x,
            "`, which is not an integer. Please round or scale your values to integers."@,
        ),
        crate::convert::out_of_range(x) == quoting(
            "The CP-SAT solver value `"@,
            x,
            "` is out of the i64 range."@,
        ),
        crate::convert::bound_not_finite(x) == quoting(
            "The CP-SAT solver requires finite variable bounds. Received `"@,
            x,
            "`, which is not finite."@,
        ),
{
}

/// A message about a variable names it: a continuous one by name and position, one with empty
/// bounds by its name, or by its position where it has none. The bounds are quoted as they are.
pub proof fn law_variable_messages(def: VariableDefinition, index: nat)
    ensures
        crate::convert::continuous(def.name@, index) == ErrorView::Str(
            MessageView {
                head: "CP-SAT does not support continuous variables. Variable '"@ + def.name@
                    + "' (index "@ + crate::error::decimal(index)
                    + ") was not declared as integer or binary. \
                     Please use `.integer()` or `.binary()` on the variable definition."@,
                tail: Seq::empty(),
            },
        ),
        def.name@.len() > 0 ==> crate::convert::empty_bounds(def, index) == ErrorView::Str(
            MessageView {
                head: "Invalid bounds for variable '"@ + def.name@ + "': lower bound ("@,
                tail: seq![(def.min, ") > upper bound ("@), (def.max, ")"@)],
            },
        ),
        def.name@.len() == 0 ==> crate::convert::empty_bounds(def, index) == ErrorView::Str(
            MessageView {
                head: "Invalid bounds for variable (index "@ + crate::error::decimal(index)
                    + "): lower bound ("@,
                tail: seq![(def.min, ") > upper bound ("@), (def.max, ")"@)],
            },
        ),
{
}

/// A message about a response ends in what the solver has to say.
pub proof fn law_response_messages(text: Seq<char>)
    ensures
        crate::status::no_status(text) == ErrorView::Str(
            MessageView {
                head: "CP-SAT returned a feasible solution without proving optimality, but good_lp cannot \
                 represent its stopping reason as a SolutionStatus. CP-SAT solution info: "@
                    + text,
                tail: Seq::empty(),
            },
        ),
        crate::bridge::refused(text) == ErrorView::Str(
            MessageView { head: "Invalid CP-SAT model: "@ + text, tail: Seq::empty() },
        ),
{
}

/// The number that decimal digits stand for.
pub open spec fn reading(text: Seq<char>) -> int
    decreases text.len(),
{
    if text.len() == 0 {
        0
    } else {
        10 * reading(text.drop_last()) + (text.last() as int - '0' as int)
    }
}

/// A position is written in decimal digits, without a leading zero, and reads back.
pub proof fn law_decimal_reads_back(n: nat)
    ensures
        reading(crate::error::decimal(n)) == n,
        crate::error::decimal(n).len() > 0,
        forall|i: int|
            0 <= i < crate::error::decimal(n).len() ==> '0' <= (
            #[trigger] crate::error::decimal(n)[i]) <= '9',
        n > 0 ==> crate::error::decimal(n)[0] != '0',
    decreases n,
{
    let text = crate::error::decimal(n);
    lemma_digit(n % 10);
    if n < 10 {
        assert(text.drop_last() =~= Seq::empty());
        assert(reading(text.drop_last()) == 0);
    } else {
        law_decimal_reads_back(n / 10);
        let before = crate::error::decimal(n / 10);
        assert(text.drop_last() =~= before);
        assert(text.last() == crate::error::digit(n % 10)[0]);
        assert forall|i: int| 0 <= i < text.len() implies '0' <= (#[trigger] text[i]) <= '9' by {
            if i < before.len() {
                assert(text[i] == before[i]);
            }
        }
        assert(text[0] == before[0]);
    }
}

/// A digit is one character.
proof fn lemma_digit(n: nat)
    requires
        n < 10,
    ensures
        crate::error::digit(n).len() == 1,
        crate::error::digit(n)[0] as int == '0' as int + n,
{
    reveal_strlit("0");
    reveal_strlit("1");
    reveal_strlit("2");
    reveal_strlit("3");
    reveal_strlit("4");
    reveal_strlit("5");
    reveal_strlit("6");
    reveal_strlit("7");
    reveal_strlit("8");
    reveal_strlit("9");
}

/// A message is written as its head, then each number as it is shown, followed by its text.
pub proof fn law_written_in_order(message: MessageView, shown: Seq<String>)
    requires
        shown.len() == message.tail.len(),
    ensures
        message.written(shown, shown.len()) == message.head + Seq::new(
            shown.len(),
            |i: int| shown[i]@ + message.tail[i].1,
        ).flatten(),
{
    lemma_written(message, shown, shown.len());
    Seq::new(shown.len(), |i: int| shown[i]@ + message.tail[i].1)
        .lemma_flatten_and_flatten_alt_are_equivalent();
}

proof fn lemma_written(message: MessageView, shown: Seq<String>, count: nat)
    ensures
        message.written(shown, count) == message.head + Seq::new(
            count,
            |i: int| shown[i]@ + message.tail[i].1,
        ).flatten_alt(),
    decreases count,
{
    let pieces = Seq::new(count, |i: int| shown[i]@ + message.tail[i].1);
    if count == 0 {
        assert(pieces.flatten_alt() =~= Seq::empty());
        assert(message.head + Seq::<char>::empty() =~= message.head);
    } else {
        let last = (count - 1) as nat;
        let before = Seq::new(last, |i: int| shown[i]@ + message.tail[i].1);
        lemma_written(message, shown, last);
        assert(pieces.drop_last() =~= before);
        assert(message.written(shown, count) =~= message.head + pieces.flatten_alt());
    }
}

/// The view of an error says all that the error says.
pub proof fn law_errors_are_told_apart(a: ResolutionError, b: ResolutionError)
    requires
        a@ == b@,
    ensures
        a is Unbounded <==> b is Unbounded,
        a is Infeasible <==> b is Infeasible,
        a is Other <==> b is Other,
        a is Str <==> b is Str,
        a is Other ==> a->Other_0@ == b->Other_0@,
        a is Str ==> a->Str_0.head@ == b->Str_0.head@,
        a is Str ==> a->Str_0.tail@.len() == b->Str_0.tail@.len(),
        a is Str ==> forall|i: int|
            0 <= i < a->Str_0.tail@.len() ==> (#[trigger] a->Str_0.tail@[i]).0
                == b->Str_0.tail@[i].0 && a->Str_0.tail@[i].1@ == b->Str_0.tail@[i].1@,
{
    if a is Str {
        let x: Message = a->Str_0;
        let y: Message = b->Str_0;
        assert(x@ == y@);
        assert(x@.tail.len() == y@.tail.len());
        assert forall|i: int| 0 <= i < x.tail@.len() implies (#[trigger] x.tail@[i]).0
            == y.tail@[i].0 && x.tail@[i].1@ == y.tail@[i].1@ by {
            assert(x@.tail[i] == y@.tail[i]);
        }
    }
}

} // verus!
