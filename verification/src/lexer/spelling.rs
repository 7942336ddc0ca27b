//! The source text of a token lexes back to that token.
use vstd::prelude::*;

use crate::lexer::{BUF_SIZE, lemma_lex_step_by_first_char, lex_next};
use crate::lexer::automaton::identifier::lemma_identifier_reads_word;
use crate::lexer::automaton::integer::{lemma_integer_reads_numeral, lemma_integer_reads_zero};
use crate::lexer::automaton::operator::lemma_operator_reads;
use crate::lexer::automaton::punctuation::lemma_punctuation_reads;
use crate::lexer::result::ErrorView;
use crate::text::{digits_value, lemma_decimal_value, spec_decimal, spec_int_text};
use crate::token::{KeywordToken, OperatorToken, PunctuationToken, TokenView};

verus! {

/// How a token is written in source text: a keyword, operator or
/// punctuation mark by its spelling, an identifier by its name, an integer
/// in decimal.
pub open spec fn source_text(t: TokenView) -> Seq<char> {
    match t {
        TokenView::Keyword(k) => k.spec_text(),
        TokenView::Identifier(name) => name,
        TokenView::Integer(v) => spec_int_text(v as int),
        TokenView::Operator(o) => o.spec_text(),
        TokenView::Punctuation(p) => p.spec_text(),
    }
}

pub open spec fn pow10(k: nat) -> nat
    decreases k,
{
    if k == 0 {
        1
    } else {
        10 * pow10((k - 1) as nat)
    }
}

proof fn lemma_decimal_len(n: nat, k: nat)
    requires
        1 <= k,
        n < pow10(k),
    ensures
        spec_decimal(n).len() <= k,
    decreases n,
{
    if n >= 10 {
        let k1 = (k - 1) as nat;
        if k1 == 0 {
            assert(pow10(0) == 1);
            assert(pow10(k) == 10 * pow10(0));
        }
        let p = pow10(k1);
        assert(n / 10 < p) by (nonlinear_arith)
            requires
                n < 10 * p,
        ;
        lemma_decimal_len(n / 10, k1);
    }
}

proof fn lemma_decimal_first_digit(n: nat)
    requires
        n >= 1,
    ensures
        spec_decimal(n).len() >= 1,
        spec_decimal(n)[0] != '0',
    decreases n,
{
    lemma_decimal_value(n);
    if n >= 10 {
        lemma_decimal_first_digit(n / 10);
    }
}

/// The source text of every token lexes back to the token, reading the
/// whole text: keywords, operators and punctuation from their spelling,
/// integers (which are never negative when lexed) from their decimal
/// spelling, and identifiers from their name, when the name is a word
/// `[A-Za-z_][A-Za-z0-9_]*` that fits the lexer's limit and spells no
/// keyword.
pub proof fn lemma_token_text_lexes_back(t: TokenView)
    requires
        t matches TokenView::Integer(v) ==> v >= 0,
        t matches TokenView::Identifier(n) ==> {
            &&& 1 <= n.len() <= BUF_SIZE
            &&& ('a' <= n[0] <= 'z') || ('A' <= n[0] <= 'Z') || n[0] == '_'
            &&& forall|k: int|
                0 < k < n.len() ==> ('a' <= #[trigger] n[k] <= 'z') || ('A' <= n[k] <= 'Z') || (
                '0' <= n[k] <= '9') || n[k] == '_'
            &&& n != seq!['i', '3', '2']
            &&& n != seq!['i', 'f']
            &&& n != seq!['e', 'l', 's', 'e']
            &&& n != seq!['w', 'h', 'i', 'l', 'e']
        },
    ensures
        lex_next(source_text(t), 0) == (
            Ok::<Option<TokenView>, ErrorView>(Some(t)),
            source_text(t).len() as int,
        ),
{
    let s = source_text(t);
    let m = BUF_SIZE as int;
    match t {
        TokenView::Keyword(k) => {
            lemma_lex_step_by_first_char(s, 0);
            lemma_identifier_reads_word(s, 0, s.len() as int, m);
            assert(s.subrange(0, s.len() as int) =~= s);
        },
        TokenView::Identifier(n) => {
            lemma_lex_step_by_first_char(s, 0);
            lemma_identifier_reads_word(s, 0, s.len() as int, m);
            assert(s.subrange(0, s.len() as int) =~= s);
        },
        TokenView::Integer(v) => {
            let n = v as nat;
            lemma_decimal_value(n);
            assert(s == spec_decimal(n));
            assert(s[0] == spec_decimal(n)[0]);
            lemma_lex_step_by_first_char(s, 0);
            if n == 0 {
                lemma_integer_reads_zero(s, 0, m);
            } else {
                lemma_decimal_first_digit(n);
                reveal_with_fuel(pow10, 20);
                assert(pow10(19) == 10000000000000000000nat);
                lemma_decimal_len(n, 19);
                assert(s.subrange(0, s.len() as int) =~= s);
                assert forall|k: int| 0 < k < s.len() implies '0' <= #[trigger] s[k] <= '9' by {
                    assert(crate::text::is_digit(s[k]));
                }
                lemma_integer_reads_numeral(s, 0, s.len() as int, m);
                let v2 = lex_next(s, 0).0->Ok_0->Some_0->Integer_0;
                lemma_decimal_value(v2 as nat);
            }
        },
        TokenView::Operator(o) => {
            lemma_lex_step_by_first_char(s, 0);
            lemma_operator_reads(s, 0, m);
        },
        TokenView::Punctuation(p) => {
            lemma_lex_step_by_first_char(s, 0);
            lemma_punctuation_reads(s, 0);
        },
    }
}

} // verus!
