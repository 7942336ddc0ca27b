pub mod identifier;
pub mod integer;
pub mod operator;
pub mod punctuation;

use vstd::prelude::*;

use crate::input::Input;
use crate::lexer::result::{ErrorView, LexOutcome, LexerResult};

verus! {

/// A deterministic automaton that recognises one class of tokens.
pub trait Automaton {
    /// How many cells of the buffer reading a token at position `p` of `chars`
    /// with a limit of `maxlen` characters fills: one per character read.
    spec fn buffer_use(&self, chars: Seq<char>, p: int, maxlen: int) -> int;

    /// Reads one token of this class from `input`, holding its characters in
    /// `buf`, and taking at most `maxlen` of them.
    fn try_accept<I: Input>(&mut self, buf: &mut [char], maxlen: usize, input: &mut I) -> (r:
        LexerResult)
        requires
            old(input).wf(),
            old(self).buffer_use(old(input).chars(), old(input).pos(), maxlen as int) <= old(
                buf,
            )@.len(),
        ensures
            final(input).wf(),
            final(input).chars() == old(input).chars(),
            final(buf)@.len() == old(buf)@.len(),
    ;

    /// Whether a token of this class can start with `c`.
    fn acceptable(&self, c: char) -> bool;
}

/// The length limit shared by the looping automata: a token may hold at most
/// `maxlen` characters. When the automaton's raw answer stops at `stop`
/// after taking the characters from `p` up to `stop` into the token, and
/// that is more than `maxlen` of them, the token is too long: the answer is
/// `TokenTooLong` with the first `maxlen` characters, and the automaton stops
/// where it would have taken one more. Otherwise `raw` stands.
pub open spec fn limit(chars: Seq<char>, p: int, maxlen: int, stop: int, raw: (LexOutcome, int)) -> (
    LexOutcome,
    int,
) {
    if p + maxlen < stop {
        (Err(ErrorView::TokenTooLong(chars.subrange(p, p + maxlen))), p + maxlen)
    } else {
        raw
    }
}

/// The limit keeps a token within `maxlen` characters of its start, when
/// the automaton's raw answer stops at the end of what it took, inside the text.
pub proof fn lemma_limit_within(
    chars: Seq<char>,
    p: int,
    maxlen: int,
    stop: int,
    raw: (LexOutcome, int),
)
    requires
        0 <= maxlen,
        p <= stop <= chars.len(),
        raw.1 == stop,
    ensures
        p <= limit(chars, p, maxlen, stop, raw).1 <= p + maxlen,
        limit(chars, p, maxlen, stop, raw).1 <= chars.len(),
{
}

/// Stores `c` at `buf[*idx]` and moves `idx` on, unless `maxlen` cells are used.
fn buf_push(buf: &mut [char], maxlen: usize, idx: &mut usize, c: char)
    requires
        *old(idx) < maxlen ==> *old(idx) < old(buf)@.len(),
    ensures
        *old(idx) >= maxlen ==> *final(idx) == *old(idx) && final(buf)@ == old(buf)@,
        *old(idx) < maxlen ==> *final(idx) == *old(idx) + 1 && final(buf)@ == old(buf)@.update(
            *old(idx) as int,
            c,
        ),
{
    if *idx >= maxlen {
        return ;
    }
    buf[*idx] = c;
    *idx += 1;
}

} // verus!
