use vstd::prelude::*;

use crate::input::Cursor;
use crate::lexer::result::{Error as LexerError, ErrorView as LexerErrorView};
use crate::token::{Token, TokenView};

verus! {

/// Why the parser could not build a program; each error carries the cursor
/// reached when it was found.
#[derive(Debug, PartialEq, Eq)]
pub enum Error {
    /// The lexer failed.
    Lex { err: LexerError, cursor: Cursor },
    /// A token other than the `expected` one was found.
    UnexpectedToken { expected: String, found: Token, cursor: Cursor },
    /// The input ended where the `expected` token should be.
    UnexpectedEndOfInput { expected: String, cursor: Cursor },
}

pub enum ErrorView {
    Lex { err: LexerErrorView, cursor: (nat, nat) },
    UnexpectedToken { expected: Seq<char>, found: TokenView, cursor: (nat, nat) },
    UnexpectedEndOfInput { expected: Seq<char>, cursor: (nat, nat) },
}

impl View for Error {
    type V = ErrorView;

    open spec fn view(&self) -> ErrorView {
        match self {
            Error::Lex { err, cursor } => ErrorView::Lex { err: err@, cursor: cursor@ },
            Error::UnexpectedToken { expected, found, cursor } => ErrorView::UnexpectedToken {
                expected: expected@,
                found: found@,
                cursor: cursor@,
            },
            Error::UnexpectedEndOfInput { expected, cursor } => ErrorView::UnexpectedEndOfInput {
                expected: expected@,
                cursor: cursor@,
            },
        }
    }
}

pub type ParserResult<T> = Result<T, Error>;

} // verus!
