use vstd::prelude::*;

verus! {

/// Everything that can stop a render: evaluation errors, plus a wrapped
/// parse error when the program text itself is rejected.
#[derive(Clone, Copy, PartialEq, Eq, Debug)]
pub enum FxytError {
    /// A final colour channel fell outside 0..=255.
    RgbOutOfRange,
    /// An operation left more than 8 values on the stack.
    StackOverflow,
    /// An operation needed more stack values than were present.
    StackEmpty,
    /// Division (or modulus) by zero while the mode register was 0.
    DivideByZero,
    /// The mode register was incremented beyond 2.
    ModeOutOfRange,
    /// The program text failed to parse.
    Parse(ParseError),
    /// A debug-halt command was executed.
    DebugHalt,
}

/// Rejections of the program text, each with enough context to locate it.
#[derive(Clone, Copy, PartialEq, Eq, Debug)]
pub enum ParseError {
    /// A character that is no command, at this 0-based character position.
    InvalidCharacter(usize),
    /// A bracket with no partner, at this 0-based character position.
    BracketMismatch(usize),
    /// A group opened more than 8 levels deep.
    LoopNesting,
}

impl From<ParseError> for FxytError {
    fn from(e: ParseError) -> (r: FxytError)
        ensures
            r == FxytError::Parse(e),
    {
        FxytError::Parse(e)
    }
}

impl vstd::std_specs::convert::FromSpecImpl<ParseError> for FxytError {
    open spec fn obeys_from_spec() -> bool {
        true
    }

    open spec fn from_spec(e: ParseError) -> FxytError {
        FxytError::Parse(e)
    }
}

} // verus!
