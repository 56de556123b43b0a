//! Errors and their messages.
use vstd::prelude::*;
use crate::float::Float64;

verus! {

/// The text of an error: a head, then numbers, each followed by a piece of text.
#[derive(Debug, PartialEq, Eq)]
pub struct Message {
    pub head: String,
    pub tail: Vec<(Float64, String)>,
}

/// What a message says.
#[verifier::ext_equal]
pub struct MessageView {
    pub head: Seq<char>,
    pub tail: Seq<(Float64, Seq<char>)>,
}

impl View for Message {
    type V = MessageView;

    open spec fn view(&self) -> MessageView {
        MessageView {
            head: self.head@,
            tail: self.tail@.map_values(|piece: (Float64, String)| (piece.0, piece.1@)),
        }
    }
}

impl MessageView {
    /// A message without numbers.
    pub open spec fn plain(text: Seq<char>) -> MessageView {
        MessageView { head: text, tail: Seq::empty() }
    }

    /// The first `count` numbers of the message, written as in `shown`, and the text around them.
    pub open spec fn written(self, shown: Seq<String>, count: nat) -> Seq<char>
        decreases count,
    {
        if count == 0 {
            self.head
        } else {
            let last = (count - 1) as nat;
            self.written(shown, last) + shown[last as int]@ + self.tail[last as int].1
        }
    }
}

impl Message {
    /// A message without numbers.
    pub fn plain(text: String) -> (message: Message)
        ensures
            message@ == MessageView::plain(text@),
    {
        let message = Message { head: text, tail: Vec::new() };
        assert(message@ =~= MessageView::plain(text@));
        message
    }

    /// A message with one number.
    pub fn with_number(head: &str, number: Float64, rest: &str) -> (message: Message)
        ensures
            message@ == (MessageView { head: head@, tail: seq![(number, rest@)] }),
    {
        let mut tail: Vec<(Float64, String)> = Vec::new();
        tail.push((number, rest.to_owned()));
        let message = Message { head: head.to_owned(), tail };
        assert(message@.tail =~= seq![(number, rest@)]);
        message
    }

    /// A message with two numbers.
    pub fn with_numbers(
        head: String,
        first: Float64,
        between: &str,
        second: Float64,
        rest: &str,
    ) -> (message: Message)
        ensures
            message@ == (MessageView {
                head: head@,
                tail: seq![(first, between@), (second, rest@)],
            }),
    {
        let mut tail: Vec<(Float64, String)> = Vec::new();
        tail.push((first, between.to_owned()));
        tail.push((second, rest.to_owned()));
        let message = Message { head, tail };
        assert(message@.tail =~= seq![(first, between@), (second, rest@)]);
        message
    }

    /// The message as one text, its numbers written by `show`.
    pub fn render<F: Fn(Float64) -> String>(&self, show: F) -> (text: String)
        requires
            forall|i: int|
                0 <= i < self@.tail.len() ==> call_requires(show, ((#[trigger] self@.tail[i]).0,)),
        ensures
            exists|shown: Seq<String>|
                {
                    &&& shown.len() == self@.tail.len()
                    &&& forall|i: int|
                        0 <= i < shown.len() ==> call_ensures(
                            show,
                            (self@.tail[i].0,),
                            #[trigger] shown[i],
                        )
                    &&& text@ == #[trigger] self@.written(shown, shown.len())
                },
    {
        let mut text: String = self.head.clone();
        let ghost mut shown: Seq<String> = Seq::empty();
        let mut i: usize = 0;
        while i < self.tail.len()
            invariant
                i <= self.tail.len(),
                shown.len() == i,
                forall|k: int|
                    0 <= k < self@.tail.len() ==> call_requires(
                        show,
                        ((#[trigger] self@.tail[k]).0,),
                    ),
                forall|k: int|
                    0 <= k < i ==> call_ensures(show, (self@.tail[k].0,), #[trigger] shown[k]),
                text@ == self@.written(shown, i as nat),
            decreases self.tail.len() - i,
        {
            assert(self@.tail[i as int].0 == self.tail@[i as int].0);
            let number: String = show(self.tail[i].0);
            let ghost before = shown;
            proof {
                shown = shown.push(number);
                lemma_written_prefix(self@, before, shown, i as nat);
            }
            text.append(number.as_str());
            text.append(self.tail[i].1.as_str());
            i = i + 1;
        }
        assert(text@ == self@.written(shown, shown.len()));
        text
    }
}

/// Only the numbers that are written matter.
proof fn lemma_written_prefix(message: MessageView, a: Seq<String>, b: Seq<String>, count: nat)
    requires
        count <= a.len(),
        count <= b.len(),
        forall|i: int| 0 <= i < count ==> a[i] == b[i],
    ensures
        message.written(a, count) == message.written(b, count),
    decreases count,
{
    if count > 0 {
        lemma_written_prefix(message, a, b, (count - 1) as nat);
    }
}

/// The decimal digit of a number below ten.
pub open spec fn digit(n: nat) -> Seq<char> {
    if n == 0 {
        "0"@
    } else if n == 1 {
        "1"@
    } else if n == 2 {
        "2"@
    } else if n == 3 {
        "3"@
    } else if n == 4 {
        "4"@
    } else if n == 5 {
        "5"@
    } else if n == 6 {
        "6"@
    } else if n == 7 {
        "7"@
    } else if n == 8 {
        "8"@
    } else {
        "9"@
    }
}

/// The decimal digits of a number.
pub open spec fn decimal(n: nat) -> Seq<char>
    decreases n,
{
    if n < 10 {
        digit(n)
    } else {
        decimal(n / 10) + digit(n % 10)
    }
}

fn digit_text(n: usize) -> (text: &'static str)
    requires
        n < 10,
    ensures
        text@ == digit(n as nat),
{
    match n {
        0 => "0",
        1 => "1",
        2 => "2",
        3 => "3",
        4 => "4",
        5 => "5",
        6 => "6",
        7 => "7",
        8 => "8",
        _ => "9",
    }
}

/// The decimal digits of a number.
pub fn decimal_text(n: usize) -> (text: String)
    ensures
        text@ == decimal(n as nat),
    decreases n,
{
    if n < 10 {
        digit_text(n).to_owned()
    } else {
        let mut text: String = decimal_text(n / 10);
        text.append(digit_text(n % 10));
        text
    }
}

/// Why a problem has no solution.
#[derive(Debug, PartialEq, Eq)]
pub enum ResolutionError {
    /// The objective can be improved without end.
    Unbounded,
    /// No assignment satisfies all the constraints.
    Infeasible,
    /// Another reason.
    Other(&'static str),
    /// Another reason, with its particulars.
    Str(Message),
}

/// What a resolution error says.
#[verifier::ext_equal]
pub enum ErrorView {
    Unbounded,
    Infeasible,
    Other(Seq<char>),
    Str(MessageView),
}

impl View for ResolutionError {
    type V = ErrorView;

    open spec fn view(&self) -> ErrorView {
        match self {
            ResolutionError::Unbounded => ErrorView::Unbounded,
            ResolutionError::Infeasible => ErrorView::Infeasible,
            ResolutionError::Other(text) => ErrorView::Other(text@),
            ResolutionError::Str(message) => ErrorView::Str(message@),
        }
    }
}

/// The result of a fallible conversion, with its error viewed.
pub open spec fn viewed<T>(result: Result<T, ResolutionError>) -> Result<T, ErrorView> {
    match result {
        Ok(value) => Ok(value),
        Err(error) => Err(error@),
    }
}

/// Why a gap tolerance is refused.
#[derive(Clone, Copy, Debug, PartialEq, Eq, Structural)]
pub enum MipGapError {
    /// The gap has a negative sign.
    Negative,
    /// The gap is not finite.
    Infinite,
}

} // verus!
