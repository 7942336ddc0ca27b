use vstd::prelude::*;

use crate::input::Input;
use crate::lexer::automaton::{Automaton, buf_push, lemma_limit_within, limit};
use crate::lexer::result::{Error, ErrorView, LexOutcome, LexerResult, outcome_view};
use crate::text::collect_prefix;
use crate::token::{OperatorToken, Token, TokenView};

verus! {

/// Recognises the operators `==`, `=`, `*`, `<` and `+`.
#[derive(Debug, Default)]
pub struct OperatorAutomaton {}

/// The characters that start an operator.
pub open spec fn is_operator_char(c: char) -> bool {
    c == '=' || c == '*' || c == '<' || c == '+'
}

/// The operator spelled by a single `*`, `<` or `+`.
pub open spec fn single_operator(c: char) -> OperatorToken {
    if c == '*' {
        OperatorToken::Mul
    } else if c == '<' {
        OperatorToken::Less
    } else {
        OperatorToken::Add
    }
}

/// What the operator automaton yields when started at position `p` of `chars`
/// with a limit of `maxlen` characters, and the position it stops at. A `=`
/// followed by `=` is read greedily as `==`.
pub open spec fn operator_scan(chars: Seq<char>, p: int, maxlen: int) -> (LexOutcome, int) {
    if p >= chars.len() {
        (Ok(None), p)
    } else {
        let c = chars[p];
        if !is_operator_char(c) {
            limit(chars, p, maxlen, p, (Err(ErrorView::UnexpectedChar(c)), p))
        } else if c == '=' {
            if p + 1 < chars.len() && chars[p + 1] == '=' {
                limit(
                    chars,
                    p,
                    maxlen,
                    p + 2,
                    (Ok(Some(TokenView::Operator(OperatorToken::Equal))), p + 2),
                )
            } else {
                limit(
                    chars,
                    p,
                    maxlen,
                    p + 1,
                    (Ok(Some(TokenView::Operator(OperatorToken::Assign))), p + 1),
                )
            }
        } else {
            limit(
                chars,
                p,
                maxlen,
                p + 1,
                (Ok(Some(TokenView::Operator(single_operator(c)))), p + 1),
            )
        }
    }
}

/// The operator automaton reads at most `maxlen` characters, and stops
/// inside the text.
pub proof fn lemma_operator_scan_bounds(chars: Seq<char>, p: int, maxlen: int)
    requires
        0 <= p,
        0 <= maxlen,
    ensures
        p <= operator_scan(chars, p, maxlen).1 <= p + maxlen || (p >= chars.len()
            && operator_scan(chars, p, maxlen).1 == p),
        p <= chars.len() ==> operator_scan(chars, p, maxlen).1 <= chars.len(),
{
    if p < chars.len() {
        let c = chars[p];
        if !is_operator_char(c) {
            lemma_limit_within(chars, p, maxlen, p, (Err(ErrorView::UnexpectedChar(c)), p));
        } else if c == '=' {
            if p + 1 < chars.len() && chars[p + 1] == '=' {
                lemma_limit_within(
                    chars,
                    p,
                    maxlen,
                    p + 2,
                    (Ok(Some(TokenView::Operator(OperatorToken::Equal))), p + 2),
                );
            } else {
                lemma_limit_within(
                    chars,
                    p,
                    maxlen,
                    p + 1,
                    (Ok(Some(TokenView::Operator(OperatorToken::Assign))), p + 1),
                );
            }
        } else {
            lemma_limit_within(
                chars,
                p,
                maxlen,
                p + 1,
                (Ok(Some(TokenView::Operator(single_operator(c)))), p + 1),
            );
        }
    }
}

impl OperatorAutomaton {
    /// The operator recognised in `state` (see `try_accept`).
    fn finish(state: u8, single: Option<OperatorToken>) -> (r: LexerResult)
        requires
            state <= 3,
            state == 3 ==> single.is_some(),
        ensures
            state == 0 ==> outcome_view(r) == Ok::<Option<TokenView>, ErrorView>(None),
            state == 1 ==> outcome_view(r) == Ok::<Option<TokenView>, ErrorView>(
                Some(TokenView::Operator(OperatorToken::Assign)),
            ),
            state == 2 ==> outcome_view(r) == Ok::<Option<TokenView>, ErrorView>(
                Some(TokenView::Operator(OperatorToken::Equal)),
            ),
            state == 3 ==> outcome_view(r) == Ok::<Option<TokenView>, ErrorView>(
                Some(TokenView::Operator(single.unwrap())),
            ),
    {
        if state == 0 {
            Ok(None)
        } else if state == 1 {
            Ok(Some(Token::Operator(OperatorToken::Assign)))
        } else if state == 2 {
            Ok(Some(Token::Operator(OperatorToken::Equal)))
        } else {
            match single {
                Some(op) => Ok(Some(Token::Operator(op))),
                None => Ok(None),
            }
        }
    }
}

/// The operators as read: `==` when a `=` is followed by another `=`
/// (greedily), `=` otherwise, and `*`, `<`, `+` as single characters; the
/// automaton stops right after the operator.
pub proof fn lemma_operator_reads(chars: Seq<char>, p: int, maxlen: int)
    requires
        0 <= p < chars.len(),
        2 <= maxlen,
    ensures
        chars[p] == '=' && p + 1 < chars.len() && chars[p + 1] == '=' ==> operator_scan(
            chars,
            p,
            maxlen,
        ) == (
            Ok::<Option<TokenView>, ErrorView>(Some(TokenView::Operator(OperatorToken::Equal))),
            p + 2,
        ),
        chars[p] == '=' && !(p + 1 < chars.len() && chars[p + 1] == '=') ==> operator_scan(
            chars,
            p,
            maxlen,
        ) == (
            Ok::<Option<TokenView>, ErrorView>(Some(TokenView::Operator(OperatorToken::Assign))),
            p + 1,
        ),
        chars[p] == '*' ==> operator_scan(chars, p, maxlen) == (
            Ok::<Option<TokenView>, ErrorView>(Some(TokenView::Operator(OperatorToken::Mul))),
            p + 1,
        ),
        chars[p] == '<' ==> operator_scan(chars, p, maxlen) == (
            Ok::<Option<TokenView>, ErrorView>(Some(TokenView::Operator(OperatorToken::Less))),
            p + 1,
        ),
        chars[p] == '+' ==> operator_scan(chars, p, maxlen) == (
            Ok::<Option<TokenView>, ErrorView>(Some(TokenView::Operator(OperatorToken::Add))),
            p + 1,
        ),
{
}

impl Automaton for OperatorAutomaton {
    open spec fn buffer_use(&self, chars: Seq<char>, p: int, maxlen: int) -> int {
        operator_scan(chars, p, maxlen).1 - p
    }

    fn try_accept<I: Input>(&mut self, buf: &mut [char], maxlen: usize, input: &mut I) -> (r:
        LexerResult)
        ensures
            (outcome_view(r), final(input).pos()) == operator_scan(
                old(input).chars(),
                old(input).pos(),
                maxlen as int,
            ),
    {
        // The automaton for `==|=|*|<|+`:
        // 0: start; `=` leads to 1, `*`, `<`, `+` lead to 3, anything else is rejected
        // 1: `=` read (final); another `=` leads to 2, anything else stops
        // 2: `==` read (final); stops
        // 3: a one-character operator read (final); stops
        let ghost chars = input.chars();
        let ghost p = input.pos();
        proof {
            input.lemma_wf();
        }
        let mut state: u8 = 0;
        let mut index: usize = 0;
        let mut single_char_operator: Option<OperatorToken> = None;
        loop
            invariant
                input.wf(),
                input.chars() == chars,
                chars == old(input).chars(),
                p == old(input).pos(),
                0 <= p <= input.pos() <= chars.len(),
                index == input.pos() - p,
                index <= maxlen,
                input.pos() <= operator_scan(chars, p, maxlen as int).1,
                operator_scan(chars, p, maxlen as int).1 - p <= buf@.len(),
                buf@.len() == old(buf)@.len(),
                buf@.take(index as int) == chars.subrange(p, input.pos()),
                state <= 3,
                state == 0 ==> index == 0,
                state == 1 ==> index == 1 && chars[p] == '=',
                state == 2 ==> index == 2 && chars[p] == '=' && chars[p + 1] == '=',
                state == 3 ==> {
                    &&& index == 1
                    &&& is_operator_char(chars[p])
                    &&& chars[p] != '='
                    &&& single_char_operator == Some(single_operator(chars[p]))
                },
            decreases chars.len() - input.pos(),
        {
            proof {
                input.lemma_wf();
            }
            let c = match input.peek() {
                Some(c) => c,
                None => {
                    return Self::finish(state, single_char_operator);
                },
            };
            if state == 0 {
                if !(c == '=' || c == '*' || c == '<' || c == '+') {
                    return Err(Error::UnexpectedChar(c));
                }
                if index >= maxlen {
                    return Err(Error::TokenTooLong(collect_prefix(buf, index)));
                }
                input.advance();
                buf_push(buf, maxlen, &mut index, c);
                assert(buf@.take(index as int) =~= chars.subrange(p, input.pos()));
                if c == '=' {
                    state = 1;
                } else if c == '*' {
                    state = 3;
                    single_char_operator = Some(OperatorToken::Mul);
                } else if c == '<' {
                    state = 3;
                    single_char_operator = Some(OperatorToken::Less);
                } else {
                    state = 3;
                    single_char_operator = Some(OperatorToken::Add);
                }
            } else if state == 1 {
                if c != '=' {
                    return Self::finish(state, single_char_operator);
                }
                if index >= maxlen {
                    return Err(Error::TokenTooLong(collect_prefix(buf, index)));
                }
                input.advance();
                buf_push(buf, maxlen, &mut index, c);
                assert(buf@.take(index as int) =~= chars.subrange(p, input.pos()));
                state = 2;
            } else {
                return Self::finish(state, single_char_operator);
            }
        }
    }

    fn acceptable(&self, c: char) -> (r: bool)
        ensures
            r == is_operator_char(c),
    {
        c == '=' || c == '*' || c == '<' || c == '+'
    }
}

} // verus!
