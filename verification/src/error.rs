//! Error values of the expression engine.

use vstd::prelude::*;

verus! {

/// A failure while turning text into tokens; carries the offending lexeme.
#[derive(Debug, Clone)]
pub struct ParseError {
    message: String,
    token: String,
}

impl ParseError {
    pub fn new(message: &str, token: &str) -> (r: ParseError)
        ensures
            r.spec_message() == message@,
            r.spec_token() == token@,
    {
        ParseError { message: message.to_owned(), token: token.to_owned() }
    }

    /// The lexeme that could not be understood.
    pub fn token(&self) -> (r: &str)
        ensures
            r@ == self.spec_token(),
    {
        self.token.as_str()
    }

    pub closed spec fn spec_message(&self) -> Seq<char> {
        self.message@
    }

    pub closed spec fn spec_token(&self) -> Seq<char> {
        self.token@
    }

    /// A rendering of the failure for display by the embedder.
    pub fn describe(&self) -> (r: String)
        ensures
            r@ == self.spec_message(),
    {
        self.message.clone()
    }
}

/// A failure while building or evaluating an expression.
#[derive(Debug, Clone)]
pub struct ExpressionError {
    message: String,
}

impl ExpressionError {
    pub fn new(message: &str) -> (r: ExpressionError)
        ensures
            r.spec_message() == message@,
    {
        ExpressionError { message: message.to_owned() }
    }

    /// Wraps a failure of an earlier stage, keeping its rendered text.
    pub fn from_source(message: &str, source: &str) -> (r: ExpressionError)
        ensures
            r.spec_message() == message@ + source@,
    {
        let mut text = message.to_owned();
        text.append(source);
        ExpressionError { message: text }
    }

    pub closed spec fn spec_message(&self) -> Seq<char> {
        self.message@
    }

    /// A rendering of the failure for display by the embedder.
    pub fn describe(&self) -> (r: String)
        ensures
            r@ == self.spec_message(),
    {
        self.message.clone()
    }
}

} // verus!
