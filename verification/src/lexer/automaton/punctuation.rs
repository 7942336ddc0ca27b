use vstd::prelude::*;

use crate::input::Input;
use crate::lexer::automaton::Automaton;
use crate::lexer::result::{Error, ErrorView, LexOutcome, LexerResult, outcome_view};
use crate::token::{PunctuationToken, Token, TokenView};

verus! {

/// Recognises the one-character punctuation `(`, `)`, `{`, `}` and `;`.
#[derive(Debug, Default)]
pub struct PunctuationAutomaton {}

pub open spec fn is_punctuation_char(c: char) -> bool {
    c == '(' || c == ')' || c == '{' || c == '}' || c == ';'
}

/// The punctuation spelled by `c` (for `is_punctuation_char(c)`).
pub open spec fn punctuation_of(c: char) -> PunctuationToken {
    if c == '(' {
        PunctuationToken::ParenLeft
    } else if c == ')' {
        PunctuationToken::ParenRight
    } else if c == '{' {
        PunctuationToken::BraceLeft
    } else if c == '}' {
        PunctuationToken::BraceRight
    } else {
        PunctuationToken::Semicolon
    }
}

/// What the punctuation automaton yields at position `p` of `chars`, and the
/// position it stops at. It reads at most one character and uses no buffer.
pub open spec fn punctuation_scan(chars: Seq<char>, p: int) -> (LexOutcome, int) {
    if p >= chars.len() {
        (Ok(None), p)
    } else if is_punctuation_char(chars[p]) {
        (Ok(Some(TokenView::Punctuation(punctuation_of(chars[p])))), p + 1)
    } else {
        (Err(ErrorView::UnexpectedChar(chars[p])), p)
    }
}

/// Each of `(`, `)`, `{`, `}`, `;` is read as its own punctuation mark, one
/// character long; any other character is rejected where it stands.
pub proof fn lemma_punctuation_reads(chars: Seq<char>, p: int)
    requires
        0 <= p < chars.len(),
    ensures
        chars[p] == '(' ==> punctuation_scan(chars, p) == (
            Ok::<Option<TokenView>, ErrorView>(
                Some(TokenView::Punctuation(PunctuationToken::ParenLeft)),
            ),
            p + 1,
        ),
        chars[p] == ')' ==> punctuation_scan(chars, p) == (
            Ok::<Option<TokenView>, ErrorView>(
                Some(TokenView::Punctuation(PunctuationToken::ParenRight)),
            ),
            p + 1,
        ),
        chars[p] == '{' ==> punctuation_scan(chars, p) == (
            Ok::<Option<TokenView>, ErrorView>(
                Some(TokenView::Punctuation(PunctuationToken::BraceLeft)),
            ),
            p + 1,
        ),
        chars[p] == '}' ==> punctuation_scan(chars, p) == (
            Ok::<Option<TokenView>, ErrorView>(
                Some(TokenView::Punctuation(PunctuationToken::BraceRight)),
            ),
            p + 1,
        ),
        chars[p] == ';' ==> punctuation_scan(chars, p) == (
            Ok::<Option<TokenView>, ErrorView>(
                Some(TokenView::Punctuation(PunctuationToken::Semicolon)),
            ),
            p + 1,
        ),
        !(chars[p] == '(' || chars[p] == ')' || chars[p] == '{' || chars[p] == '}' || chars[p]
            == ';') ==> punctuation_scan(chars, p) == (
            Err::<Option<TokenView>, ErrorView>(ErrorView::UnexpectedChar(chars[p])),
            p,
        ),
{
}

impl Automaton for PunctuationAutomaton {
    /// Punctuation needs no buffer.
    open spec fn buffer_use(&self, chars: Seq<char>, p: int, maxlen: int) -> int {
        0
    }

    fn try_accept<I: Input>(&mut self, buf: &mut [char], maxlen: usize, input: &mut I) -> (r:
        LexerResult)
        ensures
            (outcome_view(r), final(input).pos()) == punctuation_scan(
                old(input).chars(),
                old(input).pos(),
            ),
    {
        match input.peek() {
            Some(c) => {
                if c == '(' || c == ')' || c == '{' || c == '}' || c == ';' {
                    input.advance();
                    if c == '(' {
                        Ok(Some(Token::Punctuation(PunctuationToken::ParenLeft)))
                    } else if c == ')' {
                        Ok(Some(Token::Punctuation(PunctuationToken::ParenRight)))
                    } else if c == '{' {
                        Ok(Some(Token::Punctuation(PunctuationToken::BraceLeft)))
                    } else if c == '}' {
                        Ok(Some(Token::Punctuation(PunctuationToken::BraceRight)))
                    } else {
                        Ok(Some(Token::Punctuation(PunctuationToken::Semicolon)))
                    }
                } else {
                    Err(Error::UnexpectedChar(c))
                }
            },
            None => Ok(None),
        }
    }

    fn acceptable(&self, c: char) -> (r: bool)
        ensures
            r == is_punctuation_char(c),
    {
        c == '(' || c == ')' || c == '{' || c == '}' || c == ';'
    }
}

} // verus!
