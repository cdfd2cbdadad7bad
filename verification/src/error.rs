//! The errors that the parser reports.
use vstd::prelude::*;
use vstd::string::*;
use crate::token::Span;

verus! {

/// Why a token sequence could not be parsed.
#[derive(Debug)]
pub enum ParseError {
    /// A token other than the one that the grammar requires here; the message
    /// names what was expected, the span is that of the token found.
    ExpectedToken(String, Span),
    /// The input ended where an expression was required.
    UnexpectedEndOfFile,
    /// A class body held a statement that is neither a property, a method nor a comment.
    InvalidClassStatement(String, Span),
}

/// Model of [`ParseError`].
pub enum ErrorModel {
    ExpectedToken(Seq<char>, Span),
    UnexpectedEndOfFile,
    InvalidClassStatement(Seq<char>, Span),
}

impl ParseError {
    pub open spec fn model(self) -> ErrorModel {
        match self {
            ParseError::ExpectedToken(m, s) => ErrorModel::ExpectedToken(m@, s),
            ParseError::UnexpectedEndOfFile => ErrorModel::UnexpectedEndOfFile,
            ParseError::InvalidClassStatement(m, s) => ErrorModel::InvalidClassStatement(m@, s),
        }
    }
}

/// The character of a decimal digit.
pub open spec fn digit_char(d: nat) -> char
    recommends
        d < 10,
{
    (48 + d) as char
}

/// The decimal notation of `n`, without leading zeros.
pub open spec fn decimal(n: nat) -> Seq<char>
    decreases n,
{
    if n < 10 {
        seq![digit_char(n)]
    } else {
        decimal(n / 10).push(digit_char(n % 10))
    }
}

/// Calls `ToString::to_string` on a `usize`, whose `Display` writes the number
/// in decimal with no sign, padding or leading zeros; the contract states that
/// notation.
#[verifier::external_body]
fn decimal_text(n: usize) -> (s: String)
    ensures
        s@ == decimal(n as nat),
{
    n.to_string()
}

/// What a message that locates an error says.
pub open spec fn located_message(message: Seq<char>, span: Span) -> Seq<char> {
    "Parse error: "@ + message + " on line "@ + decimal(span.0 as nat) + " column "@ + decimal(
        span.1 as nat,
    )
}

/// The text that describes an error to a user.
pub open spec fn describe(e: ErrorModel) -> Seq<char> {
    match e {
        ErrorModel::ExpectedToken(m, s) => located_message(m, s),
        ErrorModel::InvalidClassStatement(m, s) => located_message(m, s),
        ErrorModel::UnexpectedEndOfFile => "Parse error: unexpected end of file."@,
    }
}

fn locate(message: &String, span: Span) -> (s: String)
    ensures
        s@ == located_message(message@, span),
{
    let mut s = String::from_str("Parse error: ");
    s.append(message.as_str());
    s.append(" on line ");
    let line = decimal_text(span.0);
    s.append(line.as_str());
    s.append(" column ");
    let column = decimal_text(span.1);
    s.append(column.as_str());
    s
}

impl ParseError {
    /// The message that the error shows a user, such as
    /// `Parse error: expected ) on line 1 column 12`.
    pub fn to_string(&self) -> (s: String)
        ensures
            s@ == describe(self.model()),
    {
        match self {
            ParseError::ExpectedToken(message, span) => locate(message, *span),
            ParseError::InvalidClassStatement(message, span) => locate(message, *span),
            ParseError::UnexpectedEndOfFile => String::from_str("Parse error: unexpected end of file."),
        }
    }
}

} // verus!
