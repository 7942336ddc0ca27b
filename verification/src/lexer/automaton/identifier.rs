use vstd::prelude::*;

use crate::input::Input;
use crate::lexer::automaton::{Automaton, buf_push, lemma_limit_within, limit};
use crate::lexer::result::{Error, ErrorView, LexOutcome, LexerResult, outcome_view};
use crate::text::{
    char_is_ident_continue,
    char_is_ident_start,
    collect_prefix,
    is_ident_continue,
    is_ident_start,
};
use crate::token::{KeywordToken, Token, TokenView};

verus! {

/// Recognises identifiers `[a-zA-Z_][a-zA-Z0-9_]*` and the keywords among them.
#[derive(Debug, Default)]
pub struct IdentifierAutomaton {}

/// The first position at or after `q` that cannot continue an identifier.
pub open spec fn ident_run_end(chars: Seq<char>, q: int) -> int
    decreases chars.len() - q,
{
    if 0 <= q < chars.len() && is_ident_continue(chars[q]) {
        ident_run_end(chars, q + 1)
    } else {
        q
    }
}

/// A word is a keyword when it spells one, an identifier otherwise.
pub open spec fn word_token(s: Seq<char>) -> TokenView {
    if s == KeywordToken::I32.spec_text() {
        TokenView::Keyword(KeywordToken::I32)
    } else if s == KeywordToken::If.spec_text() {
        TokenView::Keyword(KeywordToken::If)
    } else if s == KeywordToken::Else.spec_text() {
        TokenView::Keyword(KeywordToken::Else)
    } else if s == KeywordToken::While.spec_text() {
        TokenView::Keyword(KeywordToken::While)
    } else {
        TokenView::Identifier(s)
    }
}

/// What the identifier automaton yields when started at position `p` of
/// `chars` with a limit of `maxlen` characters, and the position it stops at.
pub open spec fn identifier_scan(chars: Seq<char>, p: int, maxlen: int) -> (LexOutcome, int) {
    if p >= chars.len() {
        (Ok(None), p)
    } else {
        let c = chars[p];
        if !is_ident_start(c) {
            limit(chars, p, maxlen, p, (Err(ErrorView::UnexpectedChar(c)), p))
        } else {
            let e = ident_run_end(chars, p + 1);
            limit(chars, p, maxlen, e, (Ok(Some(word_token(chars.subrange(p, e)))), e))
        }
    }
}

pub proof fn lemma_ident_run(chars: Seq<char>, q: int)
    requires
        0 <= q <= chars.len(),
    ensures
        q <= ident_run_end(chars, q) <= chars.len(),
        forall|k: int| q <= k < ident_run_end(chars, q) ==> is_ident_continue(#[trigger] chars[k]),
        ident_run_end(chars, q) < chars.len() ==> !is_ident_continue(
            chars[ident_run_end(chars, q)],
        ),
    decreases chars.len() - q,
{
    if q < chars.len() && is_ident_continue(chars[q]) {
        lemma_ident_run(chars, q + 1);
    }
}

/// The identifier automaton reads a maximal word `[a-zA-Z_][a-zA-Z0-9_]*`
/// and yields a keyword exactly when the word spells one.
pub proof fn lemma_identifier_token_shape(chars: Seq<char>, p: int, maxlen: int)
    requires
        0 <= p,
        0 <= maxlen,
    ensures
        identifier_scan(chars, p, maxlen) matches (Ok(Some(t)), e) ==> {
            &&& p < e <= chars.len()
            &&& is_ident_start(chars[p])
            &&& forall|k: int| p < k < e ==> is_ident_continue(#[trigger] chars[k])
            &&& (e < chars.len() ==> !is_ident_continue(chars[e]))
            &&& t == word_token(chars.subrange(p, e))
            &&& e - p <= maxlen
        },
{
    if p < chars.len() && is_ident_start(chars[p]) {
        lemma_ident_run(chars, p + 1);
    }
}

/// The identifier automaton reads at most `maxlen` characters, and stops
/// inside the text.
pub proof fn lemma_identifier_scan_bounds(chars: Seq<char>, p: int, maxlen: int)
    requires
        0 <= p,
        0 <= maxlen,
    ensures
        p <= identifier_scan(chars, p, maxlen).1 <= p + maxlen || (p >= chars.len()
            && identifier_scan(chars, p, maxlen).1 == p),
        p <= chars.len() ==> identifier_scan(chars, p, maxlen).1 <= chars.len(),
{
    if p < chars.len() {
        let c = chars[p];
        if !is_ident_start(c) {
            lemma_limit_within(chars, p, maxlen, p, (Err(ErrorView::UnexpectedChar(c)), p));
        } else {
            lemma_ident_run(chars, p + 1);
            let e = ident_run_end(chars, p + 1);
            lemma_limit_within(
                chars,
                p,
                maxlen,
                e,
                (Ok(Some(word_token(chars.subrange(p, e)))), e),
            );
        }
    }
}

pub proof fn lemma_ident_run_end_ge(chars: Seq<char>, q: int)
    ensures
        ident_run_end(chars, q) >= q,
    decreases chars.len() - q,
{
    if 0 <= q < chars.len() && is_ident_continue(chars[q]) {
        lemma_ident_run_end_ge(chars, q + 1);
    }
}

/// An identifier is a maximal run `[A-Za-z_][A-Za-z0-9_]*`: started on an
/// ASCII letter or `_`, the identifier automaton takes every following ASCII
/// letter (either case), digit and `_`, stops at the first other character
/// or the end of the text, and yields the keyword the word spells exactly,
/// or else an identifier with the word as its name. A word longer than the
/// limit is too long: the automaton stops after `maxlen` characters and
/// yields `TokenTooLong` with them.
pub proof fn lemma_identifier_reads_word(chars: Seq<char>, p: int, e: int, maxlen: int)
    requires
        0 <= p < e <= chars.len(),
        0 <= maxlen,
        ('a' <= chars[p] <= 'z') || ('A' <= chars[p] <= 'Z') || chars[p] == '_',
        forall|k: int|
            p < k < e ==> ('a' <= #[trigger] chars[k] <= 'z') || ('A' <= chars[k] <= 'Z') || (
            '0' <= chars[k] <= '9') || chars[k] == '_',
        e == chars.len() || !(('a' <= chars[e] <= 'z') || ('A' <= chars[e] <= 'Z') || (
        '0' <= chars[e] <= '9') || chars[e] == '_'),
    ensures
        e - p > maxlen ==> identifier_scan(chars, p, maxlen) == (
            Err::<Option<TokenView>, ErrorView>(
                ErrorView::TokenTooLong(chars.subrange(p, p + maxlen)),
            ),
            p + maxlen,
        ),
        e - p <= maxlen ==> identifier_scan(chars, p, maxlen).1 == e,
        e - p <= maxlen ==> identifier_scan(chars, p, maxlen).0 == Ok::<Option<TokenView>, ErrorView>(
            Some(
                {
                    let w = chars.subrange(p, e);
                    if w == seq!['i', '3', '2'] {
                        TokenView::Keyword(KeywordToken::I32)
                    } else if w == seq!['i', 'f'] {
                        TokenView::Keyword(KeywordToken::If)
                    } else if w == seq!['e', 'l', 's', 'e'] {
                        TokenView::Keyword(KeywordToken::Else)
                    } else if w == seq!['w', 'h', 'i', 'l', 'e'] {
                        TokenView::Keyword(KeywordToken::While)
                    } else {
                        TokenView::Identifier(w)
                    }
                },
            ),
        ),
{
    lemma_ident_run(chars, p + 1);
    let r = ident_run_end(chars, p + 1);
    if r < e {
        assert(is_ident_continue(chars[r]));
    }
    if r > e {
        assert(is_ident_continue(chars[e]));
    }
    assert(r == e);
    let w = chars.subrange(p, e);
}

impl IdentifierAutomaton {
    pub fn new() -> Self {
        IdentifierAutomaton {  }
    }

    /// The keyword spelled by the first `n` characters of `buf`, if any.
    fn keyword_of(buf: &[char], n: usize) -> (r: Option<KeywordToken>)
        requires
            n <= buf@.len(),
        ensures
            match word_token(buf@.take(n as int)) {
                TokenView::Keyword(k) => r == Some(k),
                _ => r.is_none(),
            },
    {
        let ghost w = buf@.take(n as int);
        if n == 3 && buf[0] == 'i' && buf[1] == '3' && buf[2] == '2' {
            assert(w =~= KeywordToken::I32.spec_text());
            Some(KeywordToken::I32)
        } else if n == 2 && buf[0] == 'i' && buf[1] == 'f' {
            assert(w =~= KeywordToken::If.spec_text());
            Some(KeywordToken::If)
        } else if n == 4 && buf[0] == 'e' && buf[1] == 'l' && buf[2] == 's' && buf[3] == 'e' {
            assert(w =~= KeywordToken::Else.spec_text());
            Some(KeywordToken::Else)
        } else if n == 5 && buf[0] == 'w' && buf[1] == 'h' && buf[2] == 'i' && buf[3] == 'l'
            && buf[4] == 'e' {
            assert(w =~= KeywordToken::While.spec_text());
            Some(KeywordToken::While)
        } else {
            proof {
                if w == KeywordToken::I32.spec_text() {
                    assert(w[0] == 'i' && w[1] == '3' && w[2] == '2');
                }
                if w == KeywordToken::If.spec_text() {
                    assert(w[0] == 'i' && w[1] == 'f');
                }
                if w == KeywordToken::Else.spec_text() {
                    assert(w[0] == 'e' && w[1] == 'l' && w[2] == 's' && w[3] == 'e');
                }
                if w == KeywordToken::While.spec_text() {
                    assert(w[0] == 'w' && w[1] == 'h' && w[2] == 'i' && w[3] == 'l' && w[4]
                        == 'e');
                }
            }
            None
        }
    }

    /// The token for the word in the first `index` cells of `buf`.
    fn finish(buf: &[char], index: usize) -> (r: LexerResult)
        requires
            index <= buf@.len(),
        ensures
            index == 0 ==> outcome_view(r) == Ok::<Option<TokenView>, ErrorView>(None),
            index > 0 ==> outcome_view(r) == Ok::<Option<TokenView>, ErrorView>(
                Some(word_token(buf@.take(index as int))),
            ),
    {
        if index == 0 {
            return Ok(None);
        }
        match Self::keyword_of(buf, index) {
            Some(k) => Ok(Some(Token::Keyword(k))),
            None => Ok(Some(Token::Identifier(collect_prefix(buf, index)))),
        }
    }
}

impl Automaton for IdentifierAutomaton {
    open spec fn buffer_use(&self, chars: Seq<char>, p: int, maxlen: int) -> int {
        identifier_scan(chars, p, maxlen).1 - p
    }

    fn try_accept<I: Input>(&mut self, buf: &mut [char], maxlen: usize, input: &mut I) -> (r:
        LexerResult)
        ensures
            (outcome_view(r), final(input).pos()) == identifier_scan(
                old(input).chars(),
                old(input).pos(),
                maxlen as int,
            ),
    {
        let ghost chars = input.chars();
        let ghost p = input.pos();
        proof {
            input.lemma_wf();
            lemma_identifier_scan_bounds(chars, p, maxlen as int);
        }
        // 0: nothing read; 1: inside the word
        let mut state: u8 = 0;
        let mut index: usize = 0;
        loop
            invariant
                input.wf(),
                input.chars() == chars,
                chars == old(input).chars(),
                p == old(input).pos(),
                0 <= p <= input.pos() <= chars.len(),
                index == input.pos() - p,
                index <= maxlen,
                input.pos() <= identifier_scan(chars, p, maxlen as int).1,
                identifier_scan(chars, p, maxlen as int).1 - p <= buf@.len(),
                buf@.len() == old(buf)@.len(),
                buf@.take(index as int) == chars.subrange(p, input.pos()),
                state <= 1,
                state == 0 ==> index == 0,
                state == 1 ==> {
                    &&& index >= 1
                    &&& is_ident_start(chars[p])
                    &&& ident_run_end(chars, p + 1) == ident_run_end(chars, input.pos())
                },
            decreases chars.len() - input.pos(),
        {
            proof {
                input.lemma_wf();
            }
            let c = match input.peek() {
                Some(c) => c,
                None => {
                    return Self::finish(buf, index);
                },
            };
            if state == 0 {
                if !(char_is_ident_start(c)) {
                    return Err(Error::UnexpectedChar(c));
                }
                if index >= maxlen {
                    proof {
                        lemma_ident_run_end_ge(chars, p + 1);
                    }
                    return Err(Error::TokenTooLong(collect_prefix(buf, index)));
                }
                proof {
                    lemma_ident_run_end_ge(chars, p + 1);
                }
                input.advance();
                buf_push(buf, maxlen, &mut index, c);
                assert(buf@.take(index as int) =~= chars.subrange(p, input.pos()));
                state = 1;
            } else {
                if !char_is_ident_continue(c) {
                    return Self::finish(buf, index);
                }
                if index >= maxlen {
                    proof {
                        lemma_ident_run_end_ge(chars, input.pos() + 1);
                    }
                    return Err(Error::TokenTooLong(collect_prefix(buf, index)));
                }
                let ghost q = input.pos();
                proof {
                    lemma_ident_run_end_ge(chars, q + 1);
                }
                input.advance();
                buf_push(buf, maxlen, &mut index, c);
                assert(buf@.take(index as int) =~= chars.subrange(p, input.pos()));
                assert(ident_run_end(chars, q) == ident_run_end(chars, q + 1));
            }
        }
    }

    fn acceptable(&self, c: char) -> (r: bool)
        ensures
            r == is_ident_start(c),
    {
        char_is_ident_start(c)
    }
}

} // verus!
