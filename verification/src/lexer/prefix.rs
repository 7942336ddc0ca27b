//! Lexing from a position depends only on the text from that position on, so
//! whitespace and comments put in front of a text change no lexing result.
use vstd::prelude::*;

use crate::lexer::{
    BUF_SIZE,
    comment_end,
    lemma_comment_end_ge,
    lemma_digit_run_end_le,
    lemma_ident_run_end_le,
    lemma_lex_next,
    lemma_trivia_end_ge,
    lex_next,
    trivia_end,
};
use crate::lexer::automaton::identifier::{ident_run_end, identifier_scan, lemma_ident_run_end_ge};
use crate::lexer::automaton::integer::{digit_run_end, integer_scan, lemma_digit_run_end_ge};
use crate::lexer::automaton::operator::operator_scan;
use crate::lexer::automaton::punctuation::punctuation_scan;
use crate::lexer::result::LexOutcome;
use crate::text::{is_digit, is_ident_continue, is_whitespace};

verus! {

/// The outcome of lexing step number `k` (counting from 0) when lexing starts
/// at position `i`, and the position after that step.
pub open spec fn lex_run(chars: Seq<char>, i: int, k: nat) -> (LexOutcome, int)
    decreases k,
{
    if k == 0 {
        lex_next(chars, i)
    } else {
        lex_run(chars, lex_next(chars, i).1, (k - 1) as nat)
    }
}

/// Whether `w` is made only of whitespace and whole `#` comments, each
/// comment ended by its newline.
pub open spec fn is_trivia(w: Seq<char>) -> bool
    decreases w.len(),
{
    if w.len() == 0 {
        true
    } else if is_whitespace(w[0]) {
        is_trivia(w.drop_first())
    } else if w[0] == '#' {
        let e = comment_end(w, 1);
        proof {
            lemma_comment_end_ge(w, 1);
        }
        e < w.len() && is_trivia(w.subrange(e, w.len() as int))
    } else {
        false
    }
}

proof fn lemma_shift_comment_end(pre: Seq<char>, c: Seq<char>, q: int)
    requires
        pre.len() <= q,
    ensures
        comment_end(pre + c, q) == pre.len() + comment_end(c, q - pre.len()),
    decreases (pre + c).len() - q,
{
    let chars = pre + c;
    if q < chars.len() {
        assert(chars[q] == c[q - pre.len()]);
        if chars[q] != '\n' {
            lemma_shift_comment_end(pre, c, q + 1);
        }
    }
}

proof fn lemma_shift_trivia_end(pre: Seq<char>, c: Seq<char>, q: int)
    requires
        pre.len() <= q,
    ensures
        trivia_end(pre + c, q) == pre.len() + trivia_end(c, q - pre.len()),
    decreases (pre + c).len() - q,
{
    let chars = pre + c;
    if q < chars.len() {
        assert(chars[q] == c[q - pre.len()]);
        if is_whitespace(chars[q]) {
            lemma_shift_trivia_end(pre, c, q + 1);
        } else if chars[q] == '#' {
            lemma_comment_end_ge(chars, q + 1);
            lemma_shift_comment_end(pre, c, q + 1);
            lemma_shift_trivia_end(pre, c, comment_end(chars, q + 1));
        }
    }
}

proof fn lemma_shift_digit_run_end(pre: Seq<char>, c: Seq<char>, q: int)
    requires
        pre.len() <= q,
    ensures
        digit_run_end(pre + c, q) == pre.len() + digit_run_end(c, q - pre.len()),
    decreases (pre + c).len() - q,
{
    let chars = pre + c;
    if q < chars.len() {
        assert(chars[q] == c[q - pre.len()]);
        if is_digit(chars[q]) {
            lemma_shift_digit_run_end(pre, c, q + 1);
        }
    }
}

proof fn lemma_shift_ident_run_end(pre: Seq<char>, c: Seq<char>, q: int)
    requires
        pre.len() <= q,
    ensures
        ident_run_end(pre + c, q) == pre.len() + ident_run_end(c, q - pre.len()),
    decreases (pre + c).len() - q,
{
    let chars = pre + c;
    if q < chars.len() {
        assert(chars[q] == c[q - pre.len()]);
        if is_ident_continue(chars[q]) {
            lemma_shift_ident_run_end(pre, c, q + 1);
        }
    }
}

proof fn lemma_shift_subrange(pre: Seq<char>, c: Seq<char>, a: int, b: int)
    requires
        pre.len() <= a <= b <= pre.len() + c.len(),
    ensures
        (pre + c).subrange(a, b) == c.subrange(a - pre.len(), b - pre.len()),
{
    assert((pre + c).subrange(a, b) =~= c.subrange(a - pre.len(), b - pre.len()));
}

proof fn lemma_shift_integer_scan(pre: Seq<char>, c: Seq<char>, q: int, m: int)
    requires
        pre.len() <= q,
        0 <= m,
    ensures
        integer_scan(pre + c, q, m) == (
            integer_scan(c, q - pre.len(), m).0,
            pre.len() + integer_scan(c, q - pre.len(), m).1,
        ),
{
    let chars = pre + c;
    let d = pre.len() as int;
    let p = q - d;
    if q < chars.len() {
        assert(chars[q] == c[p]);
        if q + 1 < chars.len() {
            assert(chars[q + 1] == c[p + 1]);
        }
        lemma_shift_digit_run_end(pre, c, q + 1);
        lemma_digit_run_end_ge(c, p + 1);
        lemma_digit_run_end_le(c, p + 1);
        let e = digit_run_end(c, p + 1);
        lemma_shift_subrange(pre, c, q, d + e);
        if q + m <= chars.len() {
            lemma_shift_subrange(pre, c, q, q + m);
        }
    }
}

proof fn lemma_shift_identifier_scan(pre: Seq<char>, c: Seq<char>, q: int, m: int)
    requires
        pre.len() <= q,
        0 <= m,
    ensures
        identifier_scan(pre + c, q, m) == (
            identifier_scan(c, q - pre.len(), m).0,
            pre.len() + identifier_scan(c, q - pre.len(), m).1,
        ),
{
    let chars = pre + c;
    let d = pre.len() as int;
    let p = q - d;
    if q < chars.len() {
        assert(chars[q] == c[p]);
        lemma_shift_ident_run_end(pre, c, q + 1);
        lemma_ident_run_end_ge(c, p + 1);
        lemma_ident_run_end_le(c, p + 1);
        let e = ident_run_end(c, p + 1);
        lemma_shift_subrange(pre, c, q, d + e);
        if q + m <= chars.len() {
            lemma_shift_subrange(pre, c, q, q + m);
        }
    }
}

proof fn lemma_shift_operator_scan(pre: Seq<char>, c: Seq<char>, q: int, m: int)
    requires
        pre.len() <= q,
        0 <= m,
    ensures
        operator_scan(pre + c, q, m) == (
            operator_scan(c, q - pre.len(), m).0,
            pre.len() + operator_scan(c, q - pre.len(), m).1,
        ),
{
    let chars = pre + c;
    let p = q - pre.len();
    if q < chars.len() {
        assert(chars[q] == c[p]);
        if q + 1 < chars.len() {
            assert(chars[q + 1] == c[p + 1]);
        }
        if q + m <= chars.len() {
            lemma_shift_subrange(pre, c, q, q + m);
        }
    }
}

/// A lexing step from position `q` of `pre + c` does what the step from the
/// matching position of `c` does.
proof fn lemma_shift_lex_next(pre: Seq<char>, c: Seq<char>, q: int)
    requires
        pre.len() <= q,
    ensures
        lex_next(pre + c, q) == (
            lex_next(c, q - pre.len()).0,
            pre.len() + lex_next(c, q - pre.len()).1,
        ),
{
    reveal(lex_next);
    let chars = pre + c;
    let d = pre.len() as int;
    lemma_shift_trivia_end(pre, c, q);
    lemma_trivia_end_ge(chars, q);
    let t = trivia_end(chars, q);
    if t < chars.len() {
        assert(chars[t] == c[t - d]);
        lemma_shift_integer_scan(pre, c, t, BUF_SIZE as int);
        lemma_shift_identifier_scan(pre, c, t, BUF_SIZE as int);
        lemma_shift_operator_scan(pre, c, t, BUF_SIZE as int);
        assert(punctuation_scan(chars, t) == (
            punctuation_scan(c, t - d).0,
            d + punctuation_scan(c, t - d).1,
        ));
    }
}

proof fn lemma_shift_lex_run(pre: Seq<char>, c: Seq<char>, q: int, k: nat)
    requires
        pre.len() <= q,
    ensures
        lex_run(pre + c, q, k) == (
            lex_run(c, q - pre.len(), k).0,
            pre.len() + lex_run(c, q - pre.len(), k).1,
        ),
    decreases k,
{
    lemma_shift_lex_next(pre, c, q);
    if k > 0 {
        let j = lex_next(c, q - pre.len()).1;
        lemma_lex_next(c, q - pre.len());
        lemma_shift_lex_run(pre, c, pre.len() + j, (k - 1) as nat);
        assert(pre.len() + j - pre.len() == j);
    }
}

/// Inside a text, a comment that stops before the text's end stops at the
/// same place whatever follows the text.
proof fn lemma_comment_end_extend(w: Seq<char>, s: Seq<char>, j: int)
    requires
        0 <= j,
        comment_end(w, j) < w.len(),
    ensures
        comment_end(w + s, j) == comment_end(w, j),
    decreases w.len() - j,
{
    assert((w + s)[j] == w[j]);
    if w[j] != '\n' {
        lemma_comment_end_extend(w, s, j + 1);
    }
}

/// Skipping whitespace and comments from the start of `w + s` runs through
/// all of `w` when `w` is made of whole whitespace and comments.
proof fn lemma_trivia_prefix(w: Seq<char>, s: Seq<char>)
    requires
        is_trivia(w),
    ensures
        trivia_end(w + s, 0) == trivia_end(w + s, w.len() as int),
    decreases w.len(),
{
    let chars = w + s;
    if w.len() > 0 {
        assert(chars[0] == w[0]);
        if is_whitespace(w[0]) {
            let rest = w.drop_first();
            let head = seq![w[0]];
            assert(chars =~= head + (rest + s));
            lemma_trivia_prefix(rest, s);
            lemma_shift_trivia_end(head, rest + s, 1);
            lemma_shift_trivia_end(head, rest + s, w.len() as int);
        } else {
            let e = comment_end(w, 1);
            lemma_comment_end_ge(w, 1);
            lemma_comment_end_extend(w, s, 1);
            let head = w.take(e);
            let rest = w.subrange(e, w.len() as int);
            assert(chars =~= head + (rest + s));
            lemma_trivia_prefix(rest, s);
            lemma_shift_trivia_end(head, rest + s, e);
            lemma_shift_trivia_end(head, rest + s, w.len() as int);
        }
    }
}

/// Whitespace and comments in front of a text change no lexing result: when
/// `w` is made of whitespace and whole `#` comments, every lexing step over
/// `w + s` yields what the same step over `s` yields, `w.len()` characters
/// further on.
pub proof fn lemma_leading_trivia_is_transparent(w: Seq<char>, s: Seq<char>, k: nat)
    requires
        is_trivia(w),
    ensures
        lex_run(w + s, 0, k).0 == lex_run(s, 0, k).0,
        lex_run(w + s, 0, k).1 == w.len() + lex_run(s, 0, k).1,
{
    reveal(lex_next);
    let chars = w + s;
    lemma_trivia_prefix(w, s);
    assert(lex_next(chars, 0) == lex_next(chars, w.len() as int));
    assert(lex_run(chars, 0, k) == lex_run(chars, w.len() as int, k));
    lemma_shift_lex_run(w, s, w.len() as int, k);
}

} // verus!
