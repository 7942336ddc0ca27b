use vstd::prelude::*;

use crate::token::{Token, TokenView};

verus! {

/// Why the lexer could not produce a token.
#[derive(Debug, PartialEq, Eq)]
pub enum Error {
    /// An automaton was chosen but met a character it cannot take here.
    UnexpectedChar(char),
    /// No automaton accepts this character.
    InvalidChar(char),
    /// A well-formed integer literal whose value does not fit in `i64`.
    InvalidInteger(String),
    /// The token reached the buffer limit; holds the characters read so far.
    TokenTooLong(String),
}

pub enum ErrorView {
    UnexpectedChar(char),
    InvalidChar(char),
    InvalidInteger(Seq<char>),
    TokenTooLong(Seq<char>),
}

impl View for Error {
    type V = ErrorView;

    open spec fn view(&self) -> ErrorView {
        match self {
            Error::UnexpectedChar(c) => ErrorView::UnexpectedChar(*c),
            Error::InvalidChar(c) => ErrorView::InvalidChar(*c),
            Error::InvalidInteger(s) => ErrorView::InvalidInteger(s@),
            Error::TokenTooLong(s) => ErrorView::TokenTooLong(s@),
        }
    }
}

/// What one lexing step yields: a token, the end of input (`Ok(None)`), or an error.
pub type LexerResult = Result<Option<Token>, Error>;

/// The mathematical value of a [`LexerResult`].
pub type LexOutcome = Result<Option<TokenView>, ErrorView>;

pub open spec fn outcome_view(r: LexerResult) -> LexOutcome {
    match r {
        Ok(Some(t)) => Ok(Some(t@)),
        Ok(None) => Ok(None),
        Err(e) => Err(e@),
    }
}

} // verus!
