pub mod automaton;
pub mod prefix;
pub mod result;
pub mod spelling;

use vstd::prelude::*;

use crate::input::{Cursor, Input, cursor_after};
use crate::lexer::automaton::Automaton;
use crate::lexer::automaton::identifier::{
    IdentifierAutomaton,
    identifier_scan,
    lemma_ident_run_end_ge,
    lemma_identifier_scan_bounds,
};
use crate::lexer::automaton::integer::{
    IntegerAutomaton,
    integer_scan,
    lemma_digit_run_end_ge,
    lemma_integer_scan_bounds,
};
use crate::lexer::automaton::operator::{
    OperatorAutomaton,
    is_operator_char,
    lemma_operator_scan_bounds,
    operator_scan,
};
use crate::lexer::automaton::punctuation::{
    PunctuationAutomaton,
    is_punctuation_char,
    punctuation_scan,
};
use crate::lexer::result::{Error, ErrorView, LexOutcome, LexerResult, outcome_view};
use crate::token::TokenView;
use crate::text::{char_is_whitespace, is_digit, is_ident_start, is_whitespace};

verus! {

/// The longest token the lexer accepts, in characters.
pub const BUF_SIZE: usize = 512;

/// Splits a character stream into tokens, one per call of `next_token`.
pub struct Lexer<I> where I: Input {
    input: I,
    buf: [char; BUF_SIZE],
    integer_automaton: IntegerAutomaton,
    identifier_automaton: IdentifierAutomaton,
    operator_automaton: OperatorAutomaton,
    punctuation_automaton: PunctuationAutomaton,
}

/// The first position at or after `q` that is not whitespace.
pub open spec fn ws_run_end(chars: Seq<char>, q: int) -> int
    decreases chars.len() - q,
{
    if 0 <= q < chars.len() && is_whitespace(chars[q]) {
        ws_run_end(chars, q + 1)
    } else {
        q
    }
}

/// The end of the comment body that starts at `j`: the first newline at or
/// after `j`, which the comment leaves in place, or the end of the text.
pub open spec fn comment_end(chars: Seq<char>, j: int) -> int
    decreases chars.len() - j,
{
    if j < 0 || j >= chars.len() {
        j
    } else if chars[j] == '\n' {
        j
    } else {
        comment_end(chars, j + 1)
    }
}

pub proof fn lemma_comment_end_ge(chars: Seq<char>, j: int)
    ensures
        comment_end(chars, j) >= j,
        0 <= j <= chars.len() ==> comment_end(chars, j) <= chars.len(),
    decreases chars.len() - j,
{
    if 0 <= j < chars.len() && chars[j] != '\n' {
        lemma_comment_end_ge(chars, j + 1);
    }
}

/// The end of the whitespace and `#` comments that start at `i`.
pub open spec fn trivia_end(chars: Seq<char>, i: int) -> int
    decreases chars.len() - i,
{
    if i < 0 || i >= chars.len() {
        i
    } else if is_whitespace(chars[i]) {
        trivia_end(chars, i + 1)
    } else if chars[i] == '#' {
        proof {
            lemma_comment_end_ge(chars, i + 1);
        }
        trivia_end(chars, comment_end(chars, i + 1))
    } else {
        i
    }
}

/// The token that starts with `chars[t]`: the first automaton, in the order
/// integer, identifier, operator, punctuation, that accepts the character
/// reads it; `InvalidChar` when none does.
pub open spec fn dispatch_scan(chars: Seq<char>, t: int) -> (LexOutcome, int) {
    let c = chars[t];
    if is_digit(c) {
        integer_scan(chars, t, BUF_SIZE as int)
    } else if is_ident_start(c) {
        identifier_scan(chars, t, BUF_SIZE as int)
    } else if is_operator_char(c) {
        operator_scan(chars, t, BUF_SIZE as int)
    } else if is_punctuation_char(c) {
        punctuation_scan(chars, t)
    } else {
        (Err(ErrorView::InvalidChar(c)), t)
    }
}

/// One lexing step from position `i`: skip whitespace and comments, then read
/// one token; `Ok(None)` at the end of the text. Also the position reached.
#[verifier::opaque]
pub open spec fn lex_next(chars: Seq<char>, i: int) -> (LexOutcome, int) {
    let t = trivia_end(chars, i);
    if t >= chars.len() {
        (Ok(None), t)
    } else {
        dispatch_scan(chars, t)
    }
}

proof fn lemma_ws_run_end(chars: Seq<char>, q: int)
    requires
        0 <= q <= chars.len(),
    ensures
        q <= ws_run_end(chars, q) <= chars.len(),
        ws_run_end(chars, q) < chars.len() ==> !is_whitespace(chars[ws_run_end(chars, q)]),
        trivia_end(chars, ws_run_end(chars, q)) == trivia_end(chars, q),
    decreases chars.len() - q,
{
    if q < chars.len() && is_whitespace(chars[q]) {
        lemma_ws_run_end(chars, q + 1);
    }
}

pub proof fn lemma_trivia_end_bounds(chars: Seq<char>, i: int)
    requires
        0 <= i <= chars.len(),
    ensures
        i <= trivia_end(chars, i) <= chars.len(),
    decreases chars.len() - i,
{
    if i < chars.len() {
        if is_whitespace(chars[i]) {
            lemma_trivia_end_bounds(chars, i + 1);
        } else if chars[i] == '#' {
            lemma_comment_end_ge(chars, i + 1);
            lemma_trivia_end_bounds(chars, comment_end(chars, i + 1));
        }
    }
}

/// A lexing step never moves backwards; it yields a token only when
/// characters remain, and then consumes at least one of them; it yields the
/// end of input exactly when only whitespace and comments remain, and then
/// stops at the end of the text.
pub proof fn lemma_lex_next(chars: Seq<char>, i: int)
    ensures
        lex_next(chars, i).1 >= i,
        lex_next(chars, i).0 is Ok && lex_next(chars, i).0->Ok_0 is Some ==> i < chars.len()
            && lex_next(chars, i).1 > i,
        0 <= i <= chars.len() ==> lex_next(chars, i).1 <= chars.len(),
        lex_next(chars, i).0 == Ok::<Option<TokenView>, ErrorView>(None) <==> trivia_end(chars, i)
            >= chars.len(),
        lex_next(chars, i).0 == Ok::<Option<TokenView>, ErrorView>(None) && 0 <= i <= chars.len()
            ==> lex_next(chars, i).1 == chars.len(),
{
    reveal(lex_next);
    lemma_trivia_end_ge(chars, i);
    let t = trivia_end(chars, i);
    if 0 <= i <= chars.len() {
        lemma_trivia_end_bounds(chars, i);
    }
    if t < chars.len() {
        let c = chars[t];
        if is_digit(c) {
            lemma_digit_run_end_ge(chars, t + 1);
            if 0 <= t {
                lemma_digit_run_end_le(chars, t + 1);
            }
        } else if is_ident_start(c) {
            lemma_ident_run_end_ge(chars, t + 1);
            if 0 <= t {
                lemma_ident_run_end_le(chars, t + 1);
            }
        }
    }
}

proof fn lemma_trivia_end_stops(chars: Seq<char>, i: int)
    requires
        0 <= i <= chars.len(),
    ensures
        trivia_end(chars, i) < chars.len() ==> !is_whitespace(chars[trivia_end(chars, i)])
            && chars[trivia_end(chars, i)] != '#',
    decreases chars.len() - i,
{
    if i < chars.len() {
        if is_whitespace(chars[i]) {
            lemma_trivia_end_stops(chars, i + 1);
        } else if chars[i] == '#' {
            lemma_comment_end_ge(chars, i + 1);
            lemma_trivia_end_stops(chars, comment_end(chars, i + 1));
        }
    }
}

/// Whitespace and comments are skipped without trace: lexing from the start
/// of a stretch of whitespace and comments gives the same as lexing from its
/// end, and so does lexing from just after one whitespace character or from
/// the newline that ends a comment.
pub proof fn lemma_trivia_is_skipped(chars: Seq<char>, i: int)
    requires
        0 <= i <= chars.len(),
    ensures
        lex_next(chars, i) == lex_next(chars, trivia_end(chars, i)),
        i < chars.len() && is_whitespace(chars[i]) ==> lex_next(chars, i) == lex_next(
            chars,
            i + 1,
        ),
        i < chars.len() && chars[i] == '#' ==> lex_next(chars, i) == lex_next(
            chars,
            comment_end(chars, i + 1),
        ),
{
    reveal(lex_next);
    lemma_trivia_end_bounds(chars, i);
    lemma_trivia_end_stops(chars, i);
    let t = trivia_end(chars, i);
    assert(trivia_end(chars, t) == t);
}

/// Once only whitespace and comments remain, every further step yields the
/// end of input again, from the end of the text.
/// A space, tab, newline or carriage return is skipped: lexing from it gives
/// what lexing from the next character gives.
pub proof fn lemma_ascii_whitespace_is_skipped(chars: Seq<char>, i: int)
    requires
        0 <= i < chars.len(),
        chars[i] == ' ' || chars[i] == '\t' || chars[i] == '\n' || chars[i] == '\r',
    ensures
        lex_next(chars, i) == lex_next(chars, i + 1),
{
    lemma_trivia_is_skipped(chars, i);
}

/// A `#` comment runs to the end of its line: lexing from the `#` gives
/// what lexing from the next newline (or the end of the text) gives.
pub proof fn lemma_comment_is_skipped(chars: Seq<char>, i: int, j: int)
    requires
        0 <= i < j <= chars.len(),
        chars[i] == '#',
        forall|k: int| i < k < j ==> chars[k] != '\n',
        j == chars.len() || chars[j] == '\n',
    ensures
        lex_next(chars, i) == lex_next(chars, j),
{
    lemma_comment_end_at(chars, i + 1, j);
    lemma_trivia_is_skipped(chars, i);
}

proof fn lemma_comment_end_at(chars: Seq<char>, q: int, j: int)
    requires
        0 <= q <= j <= chars.len(),
        forall|k: int| q <= k < j ==> chars[k] != '\n',
        j == chars.len() || chars[j] == '\n',
    ensures
        comment_end(chars, q) == j,
    decreases j - q,
{
    if q < j {
        lemma_comment_end_at(chars, q + 1, j);
    }
}

/// What one lexing step does at a printable ASCII character other than `#`
/// (so not whitespace, nor the start of a comment): a digit starts an
/// integer, an ASCII letter or `_` an identifier or keyword, `=`, `*`, `<`
/// or `+` an operator, `(`, `)`, `{`, `}` or `;` a punctuation mark, and
/// any other character is invalid.
pub proof fn lemma_lex_step_by_first_char(chars: Seq<char>, i: int)
    requires
        0 <= i < chars.len(),
        '!' <= chars[i] <= '~',
        chars[i] != '#',
    ensures
        '0' <= chars[i] <= '9' ==> lex_next(chars, i) == integer_scan(chars, i, BUF_SIZE as int),
        ('a' <= chars[i] <= 'z') || ('A' <= chars[i] <= 'Z') || chars[i] == '_' ==> lex_next(
            chars,
            i,
        ) == identifier_scan(chars, i, BUF_SIZE as int),
        chars[i] == '=' || chars[i] == '*' || chars[i] == '<' || chars[i] == '+' ==> lex_next(
            chars,
            i,
        ) == operator_scan(chars, i, BUF_SIZE as int),
        chars[i] == '(' || chars[i] == ')' || chars[i] == '{' || chars[i] == '}' || chars[i]
            == ';' ==> lex_next(chars, i) == punctuation_scan(chars, i),
        !(('0' <= chars[i] <= '9') || ('a' <= chars[i] <= 'z') || ('A' <= chars[i] <= 'Z')
            || chars[i] == '_' || chars[i] == '=' || chars[i] == '*' || chars[i] == '<'
            || chars[i] == '+' || chars[i] == '(' || chars[i] == ')' || chars[i] == '{'
            || chars[i] == '}' || chars[i] == ';') ==> lex_next(chars, i) == (
            Err::<Option<TokenView>, ErrorView>(ErrorView::InvalidChar(chars[i])),
            i,
        ),
{
    reveal(lex_next);
}

pub proof fn lemma_end_of_input_is_stable(chars: Seq<char>, i: int)
    requires
        0 <= i <= chars.len(),
        lex_next(chars, i).0 == Ok::<Option<TokenView>, ErrorView>(None),
    ensures
        lex_next(chars, i).1 == chars.len(),
        lex_next(chars, lex_next(chars, i).1) == (
            Ok::<Option<TokenView>, ErrorView>(None),
            chars.len() as int,
        ),
{
    lemma_lex_next(chars, i);
    lemma_lex_next(chars, chars.len() as int);
}

pub proof fn lemma_trivia_end_ge(chars: Seq<char>, i: int)
    ensures
        trivia_end(chars, i) >= i,
    decreases chars.len() - i,
{
    if 0 <= i < chars.len() {
        if is_whitespace(chars[i]) {
            lemma_trivia_end_ge(chars, i + 1);
        } else if chars[i] == '#' {
            lemma_comment_end_ge(chars, i + 1);
            lemma_trivia_end_ge(chars, comment_end(chars, i + 1));
        }
    }
}

pub proof fn lemma_digit_run_end_le(chars: Seq<char>, q: int)
    requires
        0 <= q,
    ensures
        q <= chars.len() ==> crate::lexer::automaton::integer::digit_run_end(chars, q) <= chars.len(),
    decreases chars.len() - q,
{
    if q < chars.len() && is_digit(chars[q]) {
        lemma_digit_run_end_le(chars, q + 1);
    }
}

pub proof fn lemma_ident_run_end_le(chars: Seq<char>, q: int)
    requires
        0 <= q,
    ensures
        q <= chars.len() ==> crate::lexer::automaton::identifier::ident_run_end(chars, q) <= chars.len(),
    decreases chars.len() - q,
{
    if q < chars.len() && crate::text::is_ident_continue(chars[q]) {
        lemma_ident_run_end_le(chars, q + 1);
    }
}

impl<I> Lexer<I> where I: Input {
    /// The text being split.
    pub closed spec fn chars(&self) -> Seq<char> {
        self.input.chars()
    }

    /// How many characters have been consumed.
    pub closed spec fn pos(&self) -> int {
        self.input.pos()
    }

    pub closed spec fn wf(&self) -> bool {
        self.input.wf()
    }

    pub proof fn lemma_wf(&self)
        requires
            self.wf(),
        ensures
            0 <= self.pos() <= self.chars().len(),
    {
        self.input.lemma_wf();
    }

    pub fn new(input: I) -> (r: Self)
        requires
            input.wf(),
        ensures
            r.wf(),
            r.chars() == input.chars(),
            r.pos() == input.pos(),
    {
        Lexer {
            input,
            buf: ['\0'; BUF_SIZE],
            integer_automaton: IntegerAutomaton {  },
            identifier_automaton: IdentifierAutomaton::new(),
            operator_automaton: OperatorAutomaton {  },
            punctuation_automaton: PunctuationAutomaton {  },
        }
    }

    /// Reads the next token: `Ok(None)` once only whitespace and comments remain.
    pub fn next_token(&mut self) -> (r: LexerResult)
        requires
            old(self).wf(),
        ensures
            final(self).wf(),
            final(self).chars() == old(self).chars(),
            (outcome_view(r), final(self).pos()) == lex_next(old(self).chars(), old(self).pos()),
    {
        self.sanitize();
        proof {
            self.lemma_wf();
            reveal(lex_next);
        }
        match self.input.peek() {
            Some(c) => self.dispatch(c),
            None => Ok(None),
        }
    }

    /// The line and column the lexer has reached.
    pub fn cursor(&self) -> (c: Cursor)
        requires
            self.wf(),
        ensures
            c@ == cursor_after(self.chars().take(self.pos())),
    {
        self.input.cursor()
    }

    fn dispatch(&mut self, c: char) -> (r: LexerResult)
        requires
            old(self).wf(),
            0 <= old(self).pos() < old(self).chars().len(),
            old(self).chars()[old(self).pos()] == c,
        ensures
            final(self).wf(),
            final(self).chars() == old(self).chars(),
            (outcome_view(r), final(self).pos()) == dispatch_scan(
                old(self).chars(),
                old(self).pos(),
            ),
    {
        proof {
            let chars = self.chars();
            let t = self.pos();
            lemma_integer_scan_bounds(chars, t, BUF_SIZE as int);
            lemma_identifier_scan_bounds(chars, t, BUF_SIZE as int);
            lemma_operator_scan_bounds(chars, t, BUF_SIZE as int);
        }
        if self.integer_automaton.acceptable(c) {
            self.integer_automaton.try_accept(&mut self.buf, BUF_SIZE, &mut self.input)
        } else if self.identifier_automaton.acceptable(c) {
            self.identifier_automaton.try_accept(&mut self.buf, BUF_SIZE, &mut self.input)
        } else if self.operator_automaton.acceptable(c) {
            self.operator_automaton.try_accept(&mut self.buf, BUF_SIZE, &mut self.input)
        } else if self.punctuation_automaton.acceptable(c) {
            self.punctuation_automaton.try_accept(&mut self.buf, BUF_SIZE, &mut self.input)
        } else {
            Err(Error::InvalidChar(c))
        }
    }

    /// Skips whitespace and comments.
    fn sanitize(&mut self)
        requires
            old(self).wf(),
        ensures
            final(self).wf(),
            final(self).chars() == old(self).chars(),
            final(self).pos() == trivia_end(old(self).chars(), old(self).pos()),
    {
        let ghost chars = self.chars();
        let ghost start = self.pos();
        proof {
            self.lemma_wf();
        }
        self.left_trim();
        loop
            invariant
                self.wf(),
                self.chars() == chars,
                0 <= self.pos() <= chars.len(),
                trivia_end(chars, self.pos()) == trivia_end(chars, start),
                self.pos() < chars.len() ==> !is_whitespace(chars[self.pos()]),
            ensures
                self.wf(),
                self.chars() == chars,
                self.pos() == trivia_end(chars, start),
            decreases chars.len() - self.pos(),
        {
            let ghost before = self.pos();
            if !self.skip_comment() {
                break;
            }
            proof {
                lemma_comment_end_ge(chars, before + 1);
            }
            self.left_trim();
        }
    }

    /// Skips whitespace.
    fn left_trim(&mut self)
        requires
            old(self).wf(),
        ensures
            final(self).wf(),
            final(self).chars() == old(self).chars(),
            final(self).pos() == ws_run_end(old(self).chars(), old(self).pos()),
            old(self).pos() <= final(self).pos() <= final(self).chars().len(),
            final(self).pos() < final(self).chars().len() ==> !is_whitespace(
                final(self).chars()[final(self).pos()],
            ),
            trivia_end(old(self).chars(), final(self).pos()) == trivia_end(
                old(self).chars(),
                old(self).pos(),
            ),
    {
        let ghost chars = self.chars();
        let ghost start = self.pos();
        proof {
            self.lemma_wf();
            lemma_ws_run_end(chars, start);
        }
        loop
            invariant
                self.wf(),
                self.chars() == chars,
                0 <= start <= self.pos() <= chars.len(),
                ws_run_end(chars, self.pos()) == ws_run_end(chars, start),
            ensures
                self.wf(),
                self.chars() == chars,
                self.pos() == ws_run_end(chars, start),
            decreases chars.len() - self.pos(),
        {
            proof {
                self.lemma_wf();
            }
            match self.input.peek() {
                Some(c) => {
                    if !char_is_whitespace(c) {
                        break;
                    }
                    self.input.advance();
                },
                None => {
                    break;
                },
            }
        }
    }

    /// Skips one `#` comment, up to the newline that ends it (which stays);
    /// reports whether there was one.
    fn skip_comment(&mut self) -> (r: bool)
        requires
            old(self).wf(),
        ensures
            final(self).wf(),
            final(self).chars() == old(self).chars(),
            r == (old(self).pos() < old(self).chars().len() && old(self).chars()[old(
                self,
            ).pos()] == '#'),
            r ==> final(self).pos() == comment_end(old(self).chars(), old(self).pos() + 1),
            !r ==> final(self).pos() == old(self).pos(),
    {
        let ghost chars = self.chars();
        let ghost start = self.pos();
        proof {
            self.lemma_wf();
        }
        match self.input.peek() {
            Some('#') => {
                self.input.advance();
                loop
                    invariant
                        self.wf(),
                        self.chars() == chars,
                        0 <= start < self.pos() <= chars.len(),
                        comment_end(chars, self.pos()) == comment_end(chars, start + 1),
                    ensures
                        self.wf(),
                        self.chars() == chars,
                        self.pos() == comment_end(chars, start + 1),
                    decreases chars.len() - self.pos(),
                {
                    proof {
                        self.lemma_wf();
                    }
                    match self.input.peek() {
                        Some(c) => {
                            if c == '\n' {
                                break;
                            }
                            self.input.advance();
                        },
                        None => {
                            break;
                        },
                    }
                }
                true
            },
            _ => false,
        }
    }
}

} // verus!
