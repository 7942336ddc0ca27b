use vstd::prelude::*;

use crate::input::Input;
use crate::lexer::automaton::{Automaton, buf_push, lemma_limit_within, limit};
use crate::lexer::result::{Error, ErrorView, LexOutcome, LexerResult, outcome_view};
use crate::text::{
    all_digits,
    char_is_digit,
    collect_prefix,
    digit_char,
    digit_value,
    digits_value,
    is_digit,
    lemma_decimal_value,
    spec_decimal,
};
use crate::token::{Token, TokenView};

verus! {

/// Recognises non-negative integer literals, `0 | [1-9][0-9]*`.
#[derive(Debug, Default)]
pub struct IntegerAutomaton {}

/// The value of a decimal literal, when every character is a digit and the
/// value fits in `i64`.
pub open spec fn spec_to_integer(s: Seq<char>) -> Option<i64> {
    if all_digits(s) && digits_value(s) <= i64::MAX {
        Some(digits_value(s) as i64)
    } else {
        None
    }
}

/// The first position at or after `q` that does not hold a digit.
pub open spec fn digit_run_end(chars: Seq<char>, q: int) -> int
    decreases chars.len() - q,
{
    if 0 <= q < chars.len() && is_digit(chars[q]) {
        digit_run_end(chars, q + 1)
    } else {
        q
    }
}

/// The token for the literal `s`, or `InvalidInteger` when it overflows.
pub open spec fn integer_token(s: Seq<char>) -> LexOutcome {
    match spec_to_integer(s) {
        Some(v) => Ok(Some(TokenView::Integer(v))),
        None => Err(ErrorView::InvalidInteger(s)),
    }
}

/// What the integer automaton yields when started at position `p` of `chars`
/// with a limit of `maxlen` characters, and the position it stops at.
pub open spec fn integer_scan(chars: Seq<char>, p: int, maxlen: int) -> (LexOutcome, int) {
    if p >= chars.len() {
        (Ok(None), p)
    } else {
        let c = chars[p];
        if !is_digit(c) {
            limit(chars, p, maxlen, p, (Err(ErrorView::UnexpectedChar(c)), p))
        } else if c == '0' {
            // a leading zero must be the whole literal
            limit(
                chars,
                p,
                maxlen,
                p + 1,
                if p + 1 < chars.len() && is_digit(chars[p + 1]) {
                    (Err(ErrorView::UnexpectedChar(chars[p + 1])), p + 1)
                } else {
                    (Ok(Some(TokenView::Integer(0))), p + 1)
                },
            )
        } else {
            let e = digit_run_end(chars, p + 1);
            limit(chars, p, maxlen, e, (integer_token(chars.subrange(p, e)), e))
        }
    }
}

pub proof fn lemma_digit_run(chars: Seq<char>, q: int)
    requires
        0 <= q <= chars.len(),
    ensures
        q <= digit_run_end(chars, q) <= chars.len(),
        all_digits(chars.subrange(q, digit_run_end(chars, q))),
        digit_run_end(chars, q) < chars.len() ==> !is_digit(chars[digit_run_end(chars, q)]),
    decreases chars.len() - q,
{
    if q < chars.len() && is_digit(chars[q]) {
        lemma_digit_run(chars, q + 1);
        let e = digit_run_end(chars, q);
        assert forall|k: int| 0 <= k < e - q implies is_digit(
            #[trigger] chars.subrange(q, e)[k],
        ) by {
            if k > 0 {
                assert(chars.subrange(q, e)[k] == chars.subrange(q + 1, e)[k - 1]);
            }
        }
    } else {
        assert(all_digits(chars.subrange(q, q)));
    }
}

/// The integer automaton reads exactly `0 | [1-9][0-9]*`, as long a literal as
/// the text offers, and yields its decimal value: a token covers a maximal run
/// of digits without a leading zero, and holds at most `maxlen` characters.
pub proof fn lemma_integer_token_shape(chars: Seq<char>, p: int, maxlen: int)
    requires
        0 <= p,
        0 <= maxlen,
    ensures
        integer_scan(chars, p, maxlen) matches (Ok(Some(TokenView::Integer(v))), e) ==> {
            &&& p < e <= chars.len()
            &&& all_digits(chars.subrange(p, e))
            &&& (chars[p] == '0' ==> e == p + 1)
            &&& (e < chars.len() ==> !is_digit(chars[e]))
            &&& digits_value(chars.subrange(p, e)) == v
            &&& e - p <= maxlen
        },
{
    if p < chars.len() && is_digit(chars[p]) {
        if chars[p] == '0' {
            let s = chars.subrange(p, p + 1);
            assert(s.drop_last() =~= Seq::<char>::empty());
            assert(digits_value(Seq::<char>::empty()) == 0);
            assert(digit_value('0') == 0);
            assert(all_digits(s));
        } else {
            lemma_digit_run(chars, p + 1);
            let e = digit_run_end(chars, p + 1);
            assert forall|k: int| 0 <= k < e - p implies is_digit(
                #[trigger] chars.subrange(p, e)[k],
            ) by {
                if k > 0 {
                    assert(chars.subrange(p, e)[k] == chars.subrange(p + 1, e)[k - 1]);
                }
            }
            lemma_digits_value_nonneg(chars.subrange(p, e));
        }
    }
}

/// The integer automaton reads at most `maxlen` characters, and stops inside
/// the text.
pub proof fn lemma_integer_scan_bounds(chars: Seq<char>, p: int, maxlen: int)
    requires
        0 <= p,
        0 <= maxlen,
    ensures
        p <= integer_scan(chars, p, maxlen).1 <= p + maxlen || (p >= chars.len()
            && integer_scan(chars, p, maxlen).1 == p),
        p <= chars.len() ==> integer_scan(chars, p, maxlen).1 <= chars.len(),
{
    if p < chars.len() {
        let c = chars[p];
        if !is_digit(c) {
            lemma_limit_within(chars, p, maxlen, p, (Err(ErrorView::UnexpectedChar(c)), p));
        } else if c == '0' {
            if p + 1 < chars.len() && is_digit(chars[p + 1]) {
                lemma_limit_within(
                    chars,
                    p,
                    maxlen,
                    p + 1,
                    (Err(ErrorView::UnexpectedChar(chars[p + 1])), p + 1),
                );
            } else {
                lemma_limit_within(
                    chars,
                    p,
                    maxlen,
                    p + 1,
                    (Ok(Some(TokenView::Integer(0))), p + 1),
                );
            }
        } else {
            lemma_digit_run(chars, p + 1);
            let e = digit_run_end(chars, p + 1);
            lemma_limit_within(chars, p, maxlen, e, (integer_token(chars.subrange(p, e)), e));
        }
    }
}

/// Reading back the decimal spelling of a number that fits in `i64` gives the
/// number: `to_integer` undoes the printing of integers.
pub proof fn lemma_to_integer_reads_decimal(n: nat)
    requires
        n <= i64::MAX,
    ensures
        spec_to_integer(spec_decimal(n)) == Some(n as i64),
{
    lemma_decimal_value(n);
}

pub proof fn lemma_digit_run_end_ge(chars: Seq<char>, q: int)
    ensures
        digit_run_end(chars, q) >= q,
    decreases chars.len() - q,
{
    if 0 <= q < chars.len() && is_digit(chars[q]) {
        lemma_digit_run_end_ge(chars, q + 1);
    }
}

proof fn lemma_digits_value_nonneg(s: Seq<char>)
    requires
        all_digits(s),
    ensures
        digits_value(s) >= 0,
    decreases s.len(),
{
    if s.len() > 0 {
        assert(all_digits(s.drop_last()));
        lemma_digits_value_nonneg(s.drop_last());
        assert(is_digit(s[s.len() - 1]));
    }
}

/// The value of a digit string is at least the value of any of its prefixes.
proof fn lemma_digits_value_prefix(s: Seq<char>, k: int)
    requires
        all_digits(s),
        0 <= k <= s.len(),
    ensures
        digits_value(s.take(k)) <= digits_value(s),
    decreases s.len(),
{
    if k < s.len() {
        let t = s.drop_last();
        assert(all_digits(t));
        lemma_digits_value_prefix(t, k);
        assert(t.take(k) =~= s.take(k));
        lemma_digits_value_nonneg(t);
        assert(is_digit(s[s.len() - 1]));
    } else {
        assert(s.take(k) =~= s);
    }
}

/// A literal without a leading zero is the decimal spelling of its value: the
/// literal the integer automaton reads is the shortest spelling of the number.
pub proof fn lemma_decimal_of_digits(s: Seq<char>)
    requires
        all_digits(s),
        s.len() >= 1,
        s[0] != '0' || s.len() == 1,
    ensures
        digits_value(s) >= 0,
        spec_decimal(digits_value(s) as nat) == s,
    decreases s.len(),
{
    lemma_digits_value_nonneg(s);
    let d = digit_value(s.last());
    assert(is_digit(s[s.len() - 1]));
    assert(digit_char(d as nat) == s.last());
    if s.len() == 1 {
        assert(s.drop_last() =~= Seq::<char>::empty());
        assert(digits_value(Seq::<char>::empty()) == 0);
        assert(spec_decimal(digits_value(s) as nat) =~= s);
    } else {
        let t = s.drop_last();
        assert(all_digits(t));
        assert(t[0] == s[0]);
        lemma_decimal_of_digits(t);
        lemma_digits_value_prefix(t, 1);
        assert(t.take(1).drop_last() =~= Seq::<char>::empty());
        assert(digits_value(Seq::<char>::empty()) == 0);
        assert(t.take(1).last() == s[0]);
        assert(is_digit(s[0]));
        let m = digits_value(t);
        let n = digits_value(s);
        assert(n == m * 10 + d);
        assert(m >= 1);
        assert(n / 10 == m && n % 10 == d) by (nonlinear_arith)
            requires
                n == m * 10 + d,
                0 <= d < 10,
        ;
        assert(spec_decimal(n as nat) == spec_decimal((n / 10) as nat).push(
            digit_char((n % 10) as nat),
        ));
        assert(spec_decimal(n as nat) =~= s);
    }
}

/// A numeral is read whole, whatever follows it: started on a digit `1-9`,
/// the integer automaton takes every following digit, stops at the first
/// non-digit or the end of the text, and yields the number whose decimal
/// spelling is the numeral, or `InvalidInteger` with the numeral when that
/// number does not fit in `i64`. A numeral longer than the limit is too
/// long: the automaton stops after `maxlen` characters and yields
/// `TokenTooLong` with them.
pub proof fn lemma_integer_reads_numeral(chars: Seq<char>, p: int, e: int, maxlen: int)
    requires
        0 <= p < e <= chars.len(),
        0 <= maxlen,
        '1' <= chars[p] <= '9',
        forall|k: int| p < k < e ==> '0' <= #[trigger] chars[k] <= '9',
        e == chars.len() || !('0' <= chars[e] <= '9'),
    ensures
        e - p > maxlen ==> integer_scan(chars, p, maxlen) == (
            Err::<Option<TokenView>, ErrorView>(
                ErrorView::TokenTooLong(chars.subrange(p, p + maxlen)),
            ),
            p + maxlen,
        ),
        e - p <= maxlen ==> integer_scan(chars, p, maxlen).1 == e,
        e - p <= maxlen && digits_value(chars.subrange(p, e)) <= i64::MAX ==> (integer_scan(
            chars,
            p,
            maxlen,
        ).0 matches Ok(Some(TokenView::Integer(v))) && v >= 0 && spec_decimal(v as nat)
            == chars.subrange(p, e)),
        e - p <= maxlen && digits_value(chars.subrange(p, e)) > i64::MAX ==> integer_scan(
            chars,
            p,
            maxlen,
        ).0 == Err::<Option<TokenView>, ErrorView>(
            ErrorView::InvalidInteger(chars.subrange(p, e)),
        ),
{
    lemma_digit_run(chars, p + 1);
    let r = digit_run_end(chars, p + 1);
    if r < e {
        assert(is_digit(chars[r]));
    }
    if r > e {
        assert(chars.subrange(p + 1, r)[e - p - 1] == chars[e]);
    }
    assert(r == e);
    let w = chars.subrange(p, e);
    assert forall|k: int| 0 <= k < w.len() implies is_digit(#[trigger] w[k]) by {
        assert(w[k] == chars[p + k]);
    }
    lemma_decimal_of_digits(w);
}

/// A lone `0` is the number zero, and a `0` followed by another digit is
/// rejected at that digit: a numeral has no leading zero.
pub proof fn lemma_integer_reads_zero(chars: Seq<char>, p: int, maxlen: int)
    requires
        0 <= p < chars.len(),
        1 <= maxlen,
        chars[p] == '0',
    ensures
        p + 1 < chars.len() && '0' <= chars[p + 1] <= '9' ==> integer_scan(chars, p, maxlen) == (
            Err::<Option<TokenView>, ErrorView>(ErrorView::UnexpectedChar(chars[p + 1])),
            p + 1,
        ),
        !(p + 1 < chars.len() && '0' <= chars[p + 1] <= '9') ==> integer_scan(chars, p, maxlen)
            == (Ok::<Option<TokenView>, ErrorView>(Some(TokenView::Integer(0))), p + 1),
{
}

/// Reading a number fails on any character that is not an ASCII digit.
pub proof fn lemma_to_integer_rejects_non_digits(s: Seq<char>, k: int)
    requires
        0 <= k < s.len(),
        !('0' <= s[k] <= '9'),
    ensures
        spec_to_integer(s) is None,
{
}

impl IntegerAutomaton {
    /// Reads `buf` as a decimal number: `None` when a character is not a digit
    /// or the value does not fit in `i64`.
    pub fn to_integer(buf: &[char]) -> (r: Option<i64>)
        ensures
            r == spec_to_integer(buf@),
    {
        let mut ans: i64 = 0;
        let mut i: usize = 0;
        let n = buf.len();
        assert(buf@.take(0) =~= Seq::<char>::empty());
        while i < n
            invariant
                n == buf@.len(),
                i <= n,
                all_digits(buf@.take(i as int)),
                ans as int == digits_value(buf@.take(i as int)),
            decreases n - i,
        {
            let c = buf[i];
            if !char_is_digit(c) {
                assert(!all_digits(buf@));
                return None;
            }
            let ghost next = buf@.take(i + 1);
            assert(next.drop_last() =~= buf@.take(i as int));
            assert(all_digits(next));
            let d: i64 = (c as u32 - '0' as u32) as i64;
            assert(d == digit_value(c));
            assert(next.last() == c);
            assert(digits_value(next) == ans * 10 + d);
            proof {
                lemma_digits_value_nonneg(buf@.take(i as int));
            }
            match ans.checked_mul(10) {
                Some(m) => {
                    match m.checked_add(d) {
                        Some(a) => {
                            ans = a;
                        },
                        None => {
                            proof {
                                if all_digits(buf@) {
                                    lemma_digits_value_prefix(buf@, i + 1);
                                }
                            }
                            return None;
                        },
                    }
                },
                None => {
                    proof {
                        if all_digits(buf@) {
                            lemma_digits_value_prefix(buf@, i + 1);
                        }
                    }
                    return None;
                },
            }
            i = i + 1;
        }
        assert(buf@.take(n as int) =~= buf@);
        Some(ans)
    }
}


impl Automaton for IntegerAutomaton {
    open spec fn buffer_use(&self, chars: Seq<char>, p: int, maxlen: int) -> int {
        integer_scan(chars, p, maxlen).1 - p
    }

    fn try_accept<I: Input>(&mut self, buf: &mut [char], maxlen: usize, input: &mut I) -> (r:
        LexerResult)
        ensures
            (outcome_view(r), final(input).pos()) == integer_scan(
                old(input).chars(),
                old(input).pos(),
                maxlen as int,
            ),
    {
        let ghost chars = input.chars();
        let ghost p = input.pos();
        proof {
            input.lemma_wf();
            lemma_integer_scan_bounds(chars, p, maxlen as int);
        }
        // 0: nothing read; 1: read a leading `0`; 2: inside `[1-9][0-9]*`
        let mut state: u8 = 0;
        let mut index: usize = 0;
        loop
            invariant
                input.wf(),
                input.chars() == chars,
                chars == old(input).chars(),
                p == old(input).pos(),
                0 <= p <= input.pos() <= chars.len(),
                index == input.pos() - p,
                index <= maxlen,
                input.pos() <= integer_scan(chars, p, maxlen as int).1,
                integer_scan(chars, p, maxlen as int).1 - p <= buf@.len(),
                buf@.len() == old(buf)@.len(),
                buf@.take(index as int) == chars.subrange(p, input.pos()),
                state <= 2,
                state == 0 ==> index == 0,
                state == 1 ==> index == 1 && chars[p] == '0',
                state == 2 ==> {
                    &&& index >= 1
                    &&& is_digit(chars[p])
                    &&& chars[p] != '0'
                    &&& all_digits(chars.subrange(p, input.pos()))
                    &&& digit_run_end(chars, p + 1) == digit_run_end(chars, input.pos())
                },
            decreases chars.len() - input.pos(),
        {
            proof {
                input.lemma_wf();
            }
            let c = match input.peek() {
                Some(c) => c,
                None => {
                    return self.finish(state, buf, index, Ghost(chars), Ghost(p));
                },
            };
            if state == 0 {
                if !self.acceptable(c) {
                    return Err(Error::UnexpectedChar(c));
                }
                if index >= maxlen {
                    proof {
                        lemma_digit_run_end_ge(chars, p + 1);
                    }
                    return Err(Error::TokenTooLong(collect_prefix(buf, index)));
                }
                proof {
                    lemma_digit_run_end_ge(chars, p + 1);
                }
                input.advance();
                buf_push(buf, maxlen, &mut index, c);
                assert(buf@.take(index as int) =~= chars.subrange(p, input.pos()));
                if c == '0' {
                    state = 1;
                } else {
                    state = 2;
                    assert(digit_run_end(chars, p + 1) == digit_run_end(chars, input.pos()));
                }
            } else if state == 1 {
                if char_is_digit(c) {
                    return Err(Error::UnexpectedChar(c));
                }
                return self.finish(state, buf, index, Ghost(chars), Ghost(p));
            } else {
                if !char_is_digit(c) {
                    return self.finish(state, buf, index, Ghost(chars), Ghost(p));
                }
                if index >= maxlen {
                    proof {
                        lemma_digit_run_end_ge(chars, input.pos() + 1);
                    }
                    return Err(Error::TokenTooLong(collect_prefix(buf, index)));
                }
                let ghost q = input.pos();
                proof {
                    lemma_digit_run_end_ge(chars, q + 1);
                }
                input.advance();
                buf_push(buf, maxlen, &mut index, c);
                assert(buf@.take(index as int) =~= chars.subrange(p, input.pos()));
                assert(chars.subrange(p, input.pos()) =~= chars.subrange(p, q).push(c));
                assert(digit_run_end(chars, q) == digit_run_end(chars, q + 1));
            }
        }
    }

    fn acceptable(&self, c: char) -> (r: bool)
        ensures
            r == is_digit(c),
    {
        char_is_digit(c)
    }
}

impl IntegerAutomaton {
    /// Turns the characters read so far into the automaton's answer.
    fn finish(
        &self,
        state: u8,
        buf: &[char],
        index: usize,
        Ghost(chars): Ghost<Seq<char>>,
        Ghost(p): Ghost<int>,
    ) -> (r: LexerResult)
        requires
            0 <= p,
            p + index <= chars.len(),
            index <= buf@.len(),
            buf@.take(index as int) == chars.subrange(p, p + index),
            state <= 2,
            state == 0 ==> index == 0,
            state == 1 ==> index == 1 && chars[p] == '0',
            state == 2 ==> index >= 1 && is_digit(chars[p]) && chars[p] != '0' && all_digits(
                chars.subrange(p, p + index),
            ),
        ensures
            state == 0 ==> outcome_view(r) == Ok::<Option<TokenView>, ErrorView>(None),
            state == 1 ==> outcome_view(r) == Ok::<Option<TokenView>, ErrorView>(
                Some(TokenView::Integer(0)),
            ),
            state == 2 ==> outcome_view(r) == integer_token(chars.subrange(p, p + index)),
    {
        if state == 0 {
            Ok(None)
        } else {
            let digits = vstd::slice::slice_subrange(buf, 0, index);
            assert(digits@ =~= buf@.take(index as int));
            proof {
                if state == 1 {
                    assert(digits@ =~= seq!['0']);
                    assert(digits@.drop_last() =~= Seq::<char>::empty());
                    assert(digits@.last() == '0');
                    assert(digit_value('0') == 0);
                    assert(digits_value(Seq::<char>::empty()) == 0);
                    assert(digits_value(digits@) == 0);
                    assert(all_digits(digits@));
                }
            }
            match Self::to_integer(digits) {
                Some(v) => Ok(Some(Token::Integer(v))),
                None => Err(Error::InvalidInteger(collect_prefix(buf, index))),
            }
        }
    }
}

} // verus!
