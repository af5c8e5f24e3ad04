use vstd::prelude::*;
use crate::token::{TokNLoc, token_text, decimal_text, append_decimal};

verus! {

/// A parse error: the location in the source text where parsing failed,
/// and a message saying why.
#[derive(Debug, Clone)]
pub struct ParseError {
    pub cursor: usize,
    pub message: String,
}

/// The model of a `ParseError`.
pub struct ErrorView {
    pub cursor: usize,
    pub message: Seq<char>,
}

impl View for ParseError {
    type V = ErrorView;

    open spec fn view(&self) -> ErrorView {
        ErrorView { cursor: self.cursor, message: self.message@ }
    }
}

/// The error reported at token `tok`: its location, and the message `msg`
/// followed by the text of the token that was found.
pub open spec fn error_at(tok: TokNLoc, msg: Seq<char>) -> ErrorView {
    ErrorView {
        cursor: tok.location,
        message: msg + ", got '"@ + token_text(tok.token) + "'."@,
    }
}

/// The text of an error, as `ParseError <cursor>: <message>`.
pub open spec fn error_text(e: ErrorView) -> Seq<char> {
    "ParseError "@ + decimal_text(e.cursor as nat) + ": "@ + e.message
}

impl ParseError {
    pub fn new(cursor: usize, message: String) -> (e: ParseError)
        ensures
            e.cursor == cursor,
            e.message == message,
    {
        ParseError { cursor, message }
    }

    /// The text of the error: `ParseError <cursor>: <message>`.
    pub fn to_text(&self) -> (s: String)
        ensures
            s@ == error_text(self@),
    {
        let mut s = String::from_str("ParseError ");
        append_decimal(&mut s, self.cursor as u64);
        s.append(": ");
        s.append(self.message.as_str());
        s
    }
}

/// The error for an unexpected token `tok`: at its location, with the
/// message `msg` followed by the text of the token.
pub fn mkperr(tok: TokNLoc, msg: &str) -> (e: ParseError)
    ensures
        e@ == error_at(tok, msg@),
{
    let mut message = String::from_str(msg);
    message.append(", got '");
    let text = tok.token.to_text();
    message.append(text.as_str());
    message.append("'.");
    ParseError { cursor: tok.location, message }
}

} // verus!
