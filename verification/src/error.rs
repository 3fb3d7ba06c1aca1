//! Why an evaluation stops.

use vstd::prelude::*;
use crate::grouping::ParseError;
use crate::lexer::LexError;
use crate::text::chars_of;

verus! {

/// Why an evaluation gives no binding.
#[derive(Debug, Clone, Copy, PartialEq, Eq, Structural)]
pub enum EvalError {
    /// An assignment to a binding that cannot be bound anew.
    AssignToConst,
    /// A pointer that points to nothing in the heap.
    Dangling,
    /// Two numbers joined by a dot spell no number.
    BadDecimal,
    /// A call of a value that cannot be called with these arguments.
    NotCallable,
    /// `if` with fewer than two or more than four arguments.
    IfArity,
    /// `forget` without exactly one name.
    ForgetArity,
    /// `previous` without exactly one argument.
    PreviousArity,
    /// `next` without exactly one argument.
    NextArity,
    /// `next` of a value that cannot change.
    NextOfConst,
    /// `when` without exactly two arguments.
    WhenArity,
    /// `function` without a name, parameters and a body.
    FunctionArguments,
    /// A parameter that is no name.
    BadParameterName,
    /// `class` without a name and a body.
    ClassArguments,
    /// `new` without exactly one argument.
    NewArity,
    /// `new` of a value that is no class.
    NotAClass,
    /// `eval` without exactly one argument.
    EvalArity,
    /// `->` where it makes no function literal.
    UnexpectedArrow,
    /// A comparison where one side is no number.
    NotComparable,
    /// The evaluation is nested deeper than its budget allows.
    TooDeep,
    /// The text handed to `eval` has no tokens.
    Lex(LexError),
    /// The text handed to `eval` is no program.
    Parse(ParseError),
}

impl EvalError {
    /// The error in words.
    pub open spec fn message_spec(self) -> Seq<char> {
        match self {
            EvalError::AssignToConst => "Can't assign to a constant binding"@,
            EvalError::Dangling => "The pointer points to nothing"@,
            EvalError::BadDecimal => "The two sides of the dot spell no number"@,
            EvalError::NotCallable => "The value is not a function"@,
            EvalError::IfArity =>
                "If statement requires two to four arguments: condition and bodies"@,
            EvalError::ForgetArity => "`forget` keyword requires one argument"@,
            EvalError::PreviousArity => "`previous` keyword requires one argument"@,
            EvalError::NextArity => "`next` keyword requires one argument"@,
            EvalError::NextOfConst => "`next` keyword requires a mutable value"@,
            EvalError::WhenArity => "`when` keyword requires two arguments; condition and body"@,
            EvalError::FunctionArguments =>
                "Invalid arguments for `function`; expected name, args, and body"@,
            EvalError::BadParameterName => "Invalid parameter name"@,
            EvalError::ClassArguments => "Invalid arguments for `class`; expected name and body"@,
            EvalError::NewArity => "Invalid arguments for `new`; expected a class"@,
            EvalError::NotAClass => "Expected a reference to a class"@,
            EvalError::EvalArity => "You can only `eval` one thing at a time"@,
            EvalError::UnexpectedArrow => "`->` can only make a function"@,
            EvalError::NotComparable => "Only numbers can be compared"@,
            EvalError::TooDeep => "The evaluation is nested too deep"@,
            EvalError::Lex(e) => e.message_spec(),
            EvalError::Parse(e) => e.message_spec(),
        }
    }

    /// The error in words.
    pub fn message(&self) -> (r: Vec<char>)
        ensures
            r@ == self.message_spec(),
    {
        match self {
            EvalError::AssignToConst => chars_of("Can't assign to a constant binding"),
            EvalError::Dangling => chars_of("The pointer points to nothing"),
            EvalError::BadDecimal => chars_of("The two sides of the dot spell no number"),
            EvalError::NotCallable => chars_of("The value is not a function"),
            EvalError::IfArity => chars_of(
                "If statement requires two to four arguments: condition and bodies",
            ),
            EvalError::ForgetArity => chars_of("`forget` keyword requires one argument"),
            EvalError::PreviousArity => chars_of("`previous` keyword requires one argument"),
            EvalError::NextArity => chars_of("`next` keyword requires one argument"),
            EvalError::NextOfConst => chars_of("`next` keyword requires a mutable value"),
            EvalError::WhenArity => chars_of(
                "`when` keyword requires two arguments; condition and body",
            ),
            EvalError::FunctionArguments => chars_of(
                "Invalid arguments for `function`; expected name, args, and body",
            ),
            EvalError::BadParameterName => chars_of("Invalid parameter name"),
            EvalError::ClassArguments => chars_of(
                "Invalid arguments for `class`; expected name and body",
            ),
            EvalError::NewArity => chars_of("Invalid arguments for `new`; expected a class"),
            EvalError::NotAClass => chars_of("Expected a reference to a class"),
            EvalError::EvalArity => chars_of("You can only `eval` one thing at a time"),
            EvalError::UnexpectedArrow => chars_of("`->` can only make a function"),
            EvalError::NotComparable => chars_of("Only numbers can be compared"),
            EvalError::TooDeep => chars_of("The evaluation is nested too deep"),
            EvalError::Lex(e) => e.message(),
            EvalError::Parse(e) => e.message(),
        }
    }
}

} // verus!
