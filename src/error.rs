use vstd::prelude::*;

verus! {

/// Why a line could not be evaluated.
#[derive(Debug, Clone, Copy, PartialEq, Eq, Structural)]
pub enum ErrorKind {
    InvalidCharacter,
    UnexpectedOperator,
    ExpectedOperator,
    ExpectedOperand,
    UnexpectedEndOfInput,
    DivisionByZero,
    InvalidNumber,
    IntegerOverflow,
}

/// The text shown for an error of kind `k`.
pub open spec fn message_text(k: ErrorKind) -> Seq<char> {
    match k {
        ErrorKind::InvalidCharacter => "Parse error: invalid character!"@,
        ErrorKind::UnexpectedOperator => "Evaluated text must start with integer!"@,
        ErrorKind::ExpectedOperator => "Item must be operator!"@,
        ErrorKind::ExpectedOperand => "Evaluated text must be integer!"@,
        ErrorKind::UnexpectedEndOfInput => "Unexpected end of stream"@,
        ErrorKind::DivisionByZero => "Division by zero!"@,
        ErrorKind::InvalidNumber => "Invalid digit found in number!"@,
        ErrorKind::IntegerOverflow => "Number too large to fit in i64!"@,
    }
}

/// The error of one line's evaluation.
#[derive(Debug, Clone, Copy, PartialEq, Eq, Structural)]
pub struct Error {
    kind: ErrorKind,
}

impl View for Error {
    type V = ErrorKind;

    closed spec fn view(&self) -> ErrorKind {
        self.kind
    }
}

impl Error {
    pub fn new(kind: ErrorKind) -> (r: Error)
        ensures
            r@ == kind,
    {
        Error { kind }
    }

    /// The text to show for this error.
    pub fn message(&self) -> (r: String)
        ensures
            r@ == message_text(self@),
    {
        let text = match self.kind {
            ErrorKind::InvalidCharacter => "Parse error: invalid character!",
            ErrorKind::UnexpectedOperator => "Evaluated text must start with integer!",
            ErrorKind::ExpectedOperator => "Item must be operator!",
            ErrorKind::ExpectedOperand => "Evaluated text must be integer!",
            ErrorKind::UnexpectedEndOfInput => "Unexpected end of stream",
            ErrorKind::DivisionByZero => "Division by zero!",
            ErrorKind::InvalidNumber => "Invalid digit found in number!",
            ErrorKind::IntegerOverflow => "Number too large to fit in i64!",
        };
        text.to_owned()
    }

    pub fn kind(&self) -> (r: ErrorKind)
        ensures
            r == self@,
    {
        self.kind
    }
}

} // verus!
