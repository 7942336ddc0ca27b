pub mod grammar;
pub mod result;

use vstd::prelude::*;

use crate::ast::{
    AssignStatement,
    BinaryOperator,
    Block,
    DeclStatement,
    ExprView,
    Expression,
    IfStatement,
    Program,
    Statement,
    StmView,
    WhileStatement,
};
use crate::input::{Cursor, Input, cursor_after};
use crate::lexer::{Lexer, lemma_lex_next, lex_next};
use crate::lexer::result::{ErrorView as LexerErrorView, outcome_view};
use crate::parser::result::{Error, ErrorView, ParserResult};
use crate::token::{KeywordToken, OperatorToken, PunctuationToken, Token, TokenView};

verus! {

/// The parser's position in the token stream: how many characters the lexer
/// has consumed, and the token read ahead but not yet taken, if any.
pub struct PState {
    pub pos: int,
    pub ahead: Option<TokenView>,
}

/// What a parsing function yields: a value and the state after it, or an error.
pub type Parsed<T> = Result<(T, PState), ErrorView>;

/// The cursor after the first `pos` characters.
pub open spec fn cursor_at(chars: Seq<char>, pos: int) -> (nat, nat) {
    cursor_after(chars.take(pos))
}

pub open spec fn remaining(chars: Seq<char>, pos: int) -> nat {
    if pos < chars.len() {
        (chars.len() - pos) as nat
    } else {
        0
    }
}

/// Decreases whenever a token is taken: the characters left to lex, counted
/// twice, plus one for a token read ahead.
pub open spec fn measure(chars: Seq<char>, s: PState) -> nat {
    2 * remaining(chars, s.pos) + if s.ahead is Some {
        1nat
    } else {
        0nat
    }
}

/// Makes sure a token is read ahead: lexes one unless one is already there.
/// At the end of the input `ahead` stays `None`.
#[verifier::opaque]
pub open spec fn spec_fill(chars: Seq<char>, s: PState) -> Result<PState, ErrorView> {
    match s.ahead {
        Some(_) => Ok(s),
        None => {
            let (r, j) = lex_next(chars, s.pos);
            match r {
                Ok(t) => Ok(PState { pos: j, ahead: t }),
                Err(e) => Err(ErrorView::Lex { err: e, cursor: cursor_at(chars, j) }),
            }
        },
    }
}

/// Takes the token read ahead (reading one first if needed), with the cursor
/// after it; `None` at the end of the input.
pub open spec fn spec_take(chars: Seq<char>, s: PState) -> Result<
    (Option<TokenView>, (nat, nat), PState),
    ErrorView,
> {
    match spec_fill(chars, s) {
        Ok(s1) => Ok((s1.ahead, cursor_at(chars, s1.pos), PState { pos: s1.pos, ahead: None })),
        Err(e) => Err(e),
    }
}

/// `text` between backquotes.
pub open spec fn quoted(text: Seq<char>) -> Seq<char> {
    "`"@ + text + "`"@
}

/// How an expected keyword, operator or punctuation is named in errors.
pub open spec fn expected_text(want: TokenView) -> Seq<char> {
    match want {
        TokenView::Keyword(k) => quoted(k.spec_text()),
        TokenView::Operator(o) => quoted(o.spec_text()),
        TokenView::Punctuation(p) => quoted(p.spec_text()),
        _ => Seq::empty(),
    }
}

/// The error for a token other than the `expected` one, or for the end of input.
pub open spec fn unexpected(found: Option<TokenView>, expected: Seq<char>, cursor: (nat, nat)) -> ErrorView {
    match found {
        Some(t) => ErrorView::UnexpectedToken { expected, found: t, cursor },
        None => ErrorView::UnexpectedEndOfInput { expected, cursor },
    }
}

/// Takes a token that must be `want`.
pub open spec fn spec_expect(chars: Seq<char>, s: PState, want: TokenView) -> Result<
    PState,
    ErrorView,
> {
    match spec_take(chars, s) {
        Err(e) => Err(e),
        Ok((t, cur, s2)) => if t == Some(want) {
            Ok(s2)
        } else {
            Err(unexpected(t, expected_text(want), cur))
        },
    }
}

/// Takes a token that must be an identifier, and gives its name.
pub open spec fn spec_expect_identifier(chars: Seq<char>, s: PState) -> Parsed<Seq<char>> {
    match spec_take(chars, s) {
        Err(e) => Err(e),
        Ok((t, cur, s2)) => match t {
            Some(TokenView::Identifier(name)) => Ok((name, s2)),
            _ => Err(unexpected(t, "identifier"@, cur)),
        },
    }
}

/// The error describing the token read ahead (after reading one if needed).
pub open spec fn spec_current_error(chars: Seq<char>, s: PState, expected: Seq<char>) -> Parsed<
    ErrorView,
> {
    match spec_fill(chars, s) {
        Err(e) => Err(e),
        Ok(s1) => Ok((unexpected(s1.ahead, expected, cursor_at(chars, s1.pos)), s1)),
    }
}

/// Whether a token starts a statement: `i32`, an identifier, `if` or `while`.
pub open spec fn starts_stm(t: Option<TokenView>) -> bool {
    match t {
        Some(TokenView::Keyword(KeywordToken::I32)) => true,
        Some(TokenView::Identifier(_)) => true,
        Some(TokenView::Keyword(KeywordToken::If)) => true,
        Some(TokenView::Keyword(KeywordToken::While)) => true,
        _ => false,
    }
}

pub proof fn lemma_fill(chars: Seq<char>, s: PState)
    ensures
        spec_fill(chars, s) matches Ok(s1) ==> {
            &&& measure(chars, s1) <= measure(chars, s)
            &&& s1.pos >= s.pos
            &&& (0 <= s.pos <= chars.len() ==> s1.pos <= chars.len())
            &&& (s.ahead is None && s1.ahead is Some ==> s.pos < chars.len() && s1.pos > s.pos)
            &&& (s.ahead is Some ==> s1 == s)
        },
{
    reveal(spec_fill);
    if s.ahead is None {
        lemma_lex_next(chars, s.pos);
    }
}

/// Taking a token makes the measure smaller; finding the end of input does
/// not make it larger.
pub proof fn lemma_take(chars: Seq<char>, s: PState)
    ensures
        spec_take(chars, s) matches Ok((t, _, s2)) ==> {
            &&& s2.ahead is None
            &&& s2.pos >= s.pos
            &&& (0 <= s.pos <= chars.len() ==> s2.pos <= chars.len())
            &&& t is Some ==> measure(chars, s2) < measure(chars, s)
            &&& measure(chars, s2) <= measure(chars, s)
        },
{
    reveal(spec_fill);
    if s.ahead is None {
        lemma_lex_next(chars, s.pos);
    }
}

pub proof fn lemma_expect(chars: Seq<char>, s: PState, want: TokenView)
    ensures
        spec_expect(chars, s, want) matches Ok(s2) ==> measure(chars, s2) < measure(chars, s),
        spec_expect_identifier(chars, s) matches Ok((_, s2)) ==> measure(chars, s2) < measure(
            chars,
            s,
        ),
{
    lemma_take(chars, s);
}

/// A program parses only when nothing but whitespace and comments follows it:
/// after a successful parse no token is held and lexing on yields the end of
/// input.
pub proof fn lemma_program_reads_everything(chars: Seq<char>, s: PState)
    ensures
        p_program(chars, s) matches Ok((_, s2)) ==> {
            &&& s2.ahead is None
            &&& lex_next(chars, s2.pos) == (Ok::<Option<TokenView>, LexerErrorView>(None), s2.pos)
        },
{
    reveal(spec_fill);
    reveal(lex_next);
    if let Ok((_, s1)) = p_stm_list(chars, s) {
        if s1.ahead is None {
            lemma_lex_next(chars, s1.pos);
        }
    }
}

pub open spec fn binary(oper: BinaryOperator, left: ExprView, right: ExprView) -> ExprView {
    ExprView::Binary(oper, Box::new(left), Box::new(right))
}

/// `Program -> StmList`, which must be followed by the end of the input.
pub open spec fn p_program(chars: Seq<char>, s: PState) -> Parsed<Seq<StmView>> {
    match p_stm_list(chars, s) {
        Err(e) => Err(e),
        Ok((stms, s1)) => match spec_fill(chars, s1) {
            Err(e) => Err(e),
            Ok(s2) => if s2.ahead is Some {
                match spec_current_error(chars, s2, "end of input"@) {
                    Ok((e, _)) => Err(e),
                    Err(e) => Err(e),
                }
            } else {
                Ok((stms, s2))
            },
        },
    }
}

/// `StmList -> Stm StmList | ε`: statements as long as the next token starts one.
pub open spec fn p_stm_list(chars: Seq<char>, s: PState) -> Parsed<Seq<StmView>>
    decreases measure(chars, s), 10nat,
{
    match spec_fill(chars, s) {
        Err(e) => Err(e),
        Ok(s1) => if starts_stm(s1.ahead) {
            proof {
                lemma_fill(chars, s);
            }
            match p_stm(chars, s1) {
                Err(e) => Err(e),
                Ok((stm, s2)) => if measure(chars, s2) < measure(chars, s) {
                    match p_stm_list(chars, s2) {
                        Err(e) => Err(e),
                        Ok((rest, s3)) => Ok((seq![stm] + rest, s3)),
                    }
                } else {
                    arbitrary()
                },
            }
        } else {
            Ok((Seq::empty(), s1))
        },
    }
}

/// `Stm -> DeclStm | AssignStm | IfStm | WhileStm`, chosen by the next token.
pub open spec fn p_stm(chars: Seq<char>, s: PState) -> Parsed<StmView>
    decreases measure(chars, s), 9nat
    via p_stm_decreases
{
    match spec_fill(chars, s) {
        Err(e) => Err(e),
        Ok(s1) => match s1.ahead {
                Some(TokenView::Keyword(KeywordToken::I32)) => match p_decl(chars, s1) {
                    Err(e) => Err(e),
                    Ok(((name, init), s2)) => Ok((StmView::Decl(name, init), s2)),
                },
                Some(TokenView::Identifier(_)) => match p_assign(chars, s1) {
                    Err(e) => Err(e),
                    Ok(((name, value), s2)) => Ok((StmView::Assign(name, value), s2)),
                },
                Some(TokenView::Keyword(KeywordToken::If)) => match p_if(chars, s1) {
                    Err(e) => Err(e),
                    Ok(((cond, then_block, else_block), s2)) => Ok(
                        (StmView::If(cond, then_block, else_block), s2),
                    ),
                },
                Some(TokenView::Keyword(KeywordToken::While)) => match p_while(chars, s1) {
                    Err(e) => Err(e),
                    Ok(((cond, body), s2)) => Ok((StmView::While(cond, body), s2)),
                },
                _ => match spec_current_error(chars, s1, "start of statement"@) {
                    Ok((e, _)) => Err(e),
                    Err(e) => Err(e),
                },
            },
    }
}

#[via_fn]
proof fn p_stm_decreases(chars: Seq<char>, s: PState) {
    lemma_fill(chars, s);
}

/// `DeclStm -> i32 id = ArithExpr ;`
pub open spec fn p_decl(chars: Seq<char>, s: PState) -> Parsed<(Seq<char>, ExprView)>
    decreases measure(chars, s), 8nat
    via p_decl_decreases
{
    match spec_expect(chars, s, TokenView::Keyword(KeywordToken::I32)) {
        Err(e) => Err(e),
        Ok(s1) => match spec_expect_identifier(chars, s1) {
            Err(e) => Err(e),
            Ok((name, s2)) => match spec_expect(
                chars,
                s2,
                TokenView::Operator(OperatorToken::Assign),
            ) {
                Err(e) => Err(e),
                Ok(s3) => {
                    match p_arith(chars, s3) {
                        Err(e) => Err(e),
                        Ok((init, s4)) => match spec_expect(
                            chars,
                            s4,
                            TokenView::Punctuation(PunctuationToken::Semicolon),
                        ) {
                            Err(e) => Err(e),
                            Ok(s5) => Ok(((name, init), s5)),
                        },
                    }
                },
            },
        },
    }
}

#[via_fn]
proof fn p_decl_decreases(chars: Seq<char>, s: PState) {
    lemma_expect(chars, s, TokenView::Keyword(KeywordToken::I32));
    if let Ok(s1) = spec_expect(chars, s, TokenView::Keyword(KeywordToken::I32)) {
        lemma_expect(chars, s1, TokenView::Keyword(KeywordToken::I32));
        if let Ok((_, s2)) = spec_expect_identifier(chars, s1) {
            lemma_expect(chars, s2, TokenView::Operator(OperatorToken::Assign));
        }
    }
}

/// `AssignStm -> id = ArithExpr ;`
pub open spec fn p_assign(chars: Seq<char>, s: PState) -> Parsed<(Seq<char>, ExprView)>
    decreases measure(chars, s), 8nat
    via p_assign_decreases
{
    match spec_expect_identifier(chars, s) {
        Err(e) => Err(e),
        Ok((name, s1)) => match spec_expect(chars, s1, TokenView::Operator(OperatorToken::Assign)) {
            Err(e) => Err(e),
            Ok(s2) => match p_arith(chars, s2) {
                Err(e) => Err(e),
                Ok((value, s3)) => match spec_expect(
                    chars,
                    s3,
                    TokenView::Punctuation(PunctuationToken::Semicolon),
                ) {
                    Err(e) => Err(e),
                    Ok(s4) => Ok(((name, value), s4)),
                },
            },
        },
    }
}

#[via_fn]
proof fn p_assign_decreases(chars: Seq<char>, s: PState) {
    lemma_expect(chars, s, TokenView::Operator(OperatorToken::Assign));
    if let Ok((_, s1)) = spec_expect_identifier(chars, s) {
        lemma_expect(chars, s1, TokenView::Operator(OperatorToken::Assign));
    }
}

/// `IfStm -> if ( BoolExpr ) Block ElsePart`
pub open spec fn p_if(chars: Seq<char>, s: PState) -> Parsed<
    (ExprView, Seq<StmView>, Option<Seq<StmView>>),
>
    decreases measure(chars, s), 8nat
    via p_if_decreases
{
    match spec_expect(chars, s, TokenView::Keyword(KeywordToken::If)) {
        Err(e) => Err(e),
        Ok(s1) => match spec_expect(chars, s1, TokenView::Punctuation(PunctuationToken::ParenLeft)) {
            Err(e) => Err(e),
            Ok(s2) => match p_bool(chars, s2) {
                Err(e) => Err(e),
                Ok((cond, s3)) => match spec_expect(
                    chars,
                    s3,
                    TokenView::Punctuation(PunctuationToken::ParenRight),
                ) {
                    Err(e) => Err(e),
                    Ok(s4) => if measure(chars, s4) < measure(chars, s) {
                        match p_block(chars, s4) {
                            Err(e) => Err(e),
                            Ok((then_block, s5)) => if measure(chars, s5) < measure(chars, s) {
                                match p_else(chars, s5) {
                                    Err(e) => Err(e),
                                    Ok((else_block, s6)) => Ok(
                                        ((cond, then_block, else_block), s6),
                                    ),
                                }
                            } else {
                                arbitrary()
                            },
                        }
                    } else {
                        arbitrary()
                    },
                },
            },
        },
    }
}

#[via_fn]
proof fn p_if_decreases(chars: Seq<char>, s: PState) {
    lemma_expect(chars, s, TokenView::Keyword(KeywordToken::If));
    if let Ok(s1) = spec_expect(chars, s, TokenView::Keyword(KeywordToken::If)) {
        lemma_expect(chars, s1, TokenView::Punctuation(PunctuationToken::ParenLeft));
    }
}

/// `ElsePart -> else Block | ε`
pub open spec fn p_else(chars: Seq<char>, s: PState) -> Parsed<Option<Seq<StmView>>>
    decreases measure(chars, s), 7nat
    via p_else_decreases
{
    match spec_fill(chars, s) {
        Err(e) => Err(e),
        Ok(s1) => if s1.ahead == Some(TokenView::Keyword(KeywordToken::Else)) {
            match spec_expect(chars, s1, TokenView::Keyword(KeywordToken::Else)) {
                Err(e) => Err(e),
                Ok(s2) => match p_block(chars, s2) {
                    Err(e) => Err(e),
                    Ok((block, s3)) => Ok((Some(block), s3)),
                },
            }
        } else {
            Ok((None, s1))
        },
    }
}

#[via_fn]
proof fn p_else_decreases(chars: Seq<char>, s: PState) {
    lemma_fill(chars, s);
    if let Ok(s1) = spec_fill(chars, s) {
        lemma_expect(chars, s1, TokenView::Keyword(KeywordToken::Else));
    }
}

/// `WhileStm -> while ( BoolExpr ) Block`
pub open spec fn p_while(chars: Seq<char>, s: PState) -> Parsed<(ExprView, Seq<StmView>)>
    decreases measure(chars, s), 8nat
    via p_while_decreases
{
    match spec_expect(chars, s, TokenView::Keyword(KeywordToken::While)) {
        Err(e) => Err(e),
        Ok(s1) => match spec_expect(chars, s1, TokenView::Punctuation(PunctuationToken::ParenLeft)) {
            Err(e) => Err(e),
            Ok(s2) => match p_bool(chars, s2) {
                Err(e) => Err(e),
                Ok((cond, s3)) => match spec_expect(
                    chars,
                    s3,
                    TokenView::Punctuation(PunctuationToken::ParenRight),
                ) {
                    Err(e) => Err(e),
                    Ok(s4) => if measure(chars, s4) < measure(chars, s) {
                        match p_block(chars, s4) {
                            Err(e) => Err(e),
                            Ok((body, s5)) => Ok(((cond, body), s5)),
                        }
                    } else {
                        arbitrary()
                    },
                },
            },
        },
    }
}

#[via_fn]
proof fn p_while_decreases(chars: Seq<char>, s: PState) {
    lemma_expect(chars, s, TokenView::Keyword(KeywordToken::While));
    if let Ok(s1) = spec_expect(chars, s, TokenView::Keyword(KeywordToken::While)) {
        lemma_expect(chars, s1, TokenView::Punctuation(PunctuationToken::ParenLeft));
    }
}

/// `Block -> { StmList }`
pub open spec fn p_block(chars: Seq<char>, s: PState) -> Parsed<Seq<StmView>>
    decreases measure(chars, s), 7nat
    via p_block_decreases
{
    match spec_expect(chars, s, TokenView::Punctuation(PunctuationToken::BraceLeft)) {
        Err(e) => Err(e),
        Ok(s1) => match p_stm_list(chars, s1) {
            Err(e) => Err(e),
            Ok((stms, s2)) => match spec_expect(
                chars,
                s2,
                TokenView::Punctuation(PunctuationToken::BraceRight),
            ) {
                Err(e) => Err(e),
                Ok(s3) => Ok((stms, s3)),
            },
        },
    }
}

#[via_fn]
proof fn p_block_decreases(chars: Seq<char>, s: PState) {
    lemma_expect(chars, s, TokenView::Punctuation(PunctuationToken::BraceLeft));
}

/// `RelOp -> == | <`
pub open spec fn p_rel(chars: Seq<char>, s: PState) -> Parsed<BinaryOperator> {
    match spec_take(chars, s) {
        Err(e) => Err(e),
        Ok((t, cur, s1)) => match t {
            Some(TokenView::Operator(OperatorToken::Equal)) => Ok((BinaryOperator::Equal, s1)),
            Some(TokenView::Operator(OperatorToken::Less)) => Ok((BinaryOperator::Less, s1)),
            _ => Err(unexpected(t, "`==` or `<`"@, cur)),
        },
    }
}

/// `BoolExpr -> ArithExpr RelOp ArithExpr`
pub open spec fn p_bool(chars: Seq<char>, s: PState) -> Parsed<ExprView>
    decreases measure(chars, s), 7nat,
{
    match p_arith(chars, s) {
        Err(e) => Err(e),
        Ok((left, s1)) => match p_rel(chars, s1) {
            Err(e) => Err(e),
            Ok((oper, s2)) => if measure(chars, s2) < measure(chars, s) {
                match p_arith(chars, s2) {
                    Err(e) => Err(e),
                    Ok((right, s3)) => Ok((binary(oper, left, right), s3)),
                }
            } else {
                arbitrary()
            },
        },
    }
}

/// `ArithExpr -> Term ArithTail`
pub open spec fn p_arith(chars: Seq<char>, s: PState) -> Parsed<ExprView>
    decreases measure(chars, s), 6nat,
{
    match p_term(chars, s) {
        Err(e) => Err(e),
        Ok((left, s1)) => if measure(chars, s1) <= measure(chars, s) {
            p_arith_tail(chars, left, s1)
        } else {
            arbitrary()
        },
    }
}

/// `ArithTail -> + Term ArithTail | ε`, folding to the left: `a + b + c` is
/// `(a + b) + c`.
pub open spec fn p_arith_tail(chars: Seq<char>, left: ExprView, s: PState) -> Parsed<ExprView>
    decreases measure(chars, s), 5nat,
{
    match spec_fill(chars, s) {
        Err(e) => Err(e),
        Ok(s1) => if s1.ahead == Some(TokenView::Operator(OperatorToken::Add)) {
            match spec_expect(chars, s1, TokenView::Operator(OperatorToken::Add)) {
                Err(e) => Err(e),
                Ok(s2) => {
                    proof {
                        lemma_fill(chars, s);
                        lemma_expect(chars, s1, TokenView::Operator(OperatorToken::Add));
                    }
                    match p_term(chars, s2) {
                        Err(e) => Err(e),
                        Ok((right, s3)) => if measure(chars, s3) < measure(chars, s) {
                            p_arith_tail(chars, binary(BinaryOperator::Add, left, right), s3)
                        } else {
                            arbitrary()
                        },
                    }
                },
            }
        } else {
            Ok((left, s1))
        },
    }
}

/// `Term -> Factor TermTail`
pub open spec fn p_term(chars: Seq<char>, s: PState) -> Parsed<ExprView>
    decreases measure(chars, s), 4nat,
{
    match p_factor(chars, s) {
        Err(e) => Err(e),
        Ok((left, s1)) => if measure(chars, s1) <= measure(chars, s) {
            p_term_tail(chars, left, s1)
        } else {
            arbitrary()
        },
    }
}

/// `TermTail -> * Factor TermTail | ε`, folding to the left.
pub open spec fn p_term_tail(chars: Seq<char>, left: ExprView, s: PState) -> Parsed<ExprView>
    decreases measure(chars, s), 3nat,
{
    match spec_fill(chars, s) {
        Err(e) => Err(e),
        Ok(s1) => if s1.ahead == Some(TokenView::Operator(OperatorToken::Mul)) {
            match spec_expect(chars, s1, TokenView::Operator(OperatorToken::Mul)) {
                Err(e) => Err(e),
                Ok(s2) => {
                    proof {
                        lemma_fill(chars, s);
                        lemma_expect(chars, s1, TokenView::Operator(OperatorToken::Mul));
                    }
                    match p_factor(chars, s2) {
                        Err(e) => Err(e),
                        Ok((right, s3)) => if measure(chars, s3) < measure(chars, s) {
                            p_term_tail(chars, binary(BinaryOperator::Mul, left, right), s3)
                        } else {
                            arbitrary()
                        },
                    }
                },
            }
        } else {
            Ok((left, s1))
        },
    }
}

/// `Factor -> id | num | ( ArithExpr )`
pub open spec fn p_factor(chars: Seq<char>, s: PState) -> Parsed<ExprView>
    decreases measure(chars, s), 2nat
    via p_factor_decreases
{
    match spec_take(chars, s) {
        Err(e) => Err(e),
        Ok((t, cur, s1)) => match t {
            Some(TokenView::Identifier(name)) => Ok((ExprView::Identifier(name), s1)),
            Some(TokenView::Integer(value)) => Ok((ExprView::Integer(value), s1)),
            Some(TokenView::Punctuation(PunctuationToken::ParenLeft)) => match p_arith(chars, s1) {
                Err(e) => Err(e),
                Ok((e, s2)) => match spec_expect(
                    chars,
                    s2,
                    TokenView::Punctuation(PunctuationToken::ParenRight),
                ) {
                    Err(x) => Err(x),
                    Ok(s3) => Ok((e, s3)),
                },
            },
            _ => Err(unexpected(t, "identifier, integer, or `(`"@, cur)),
        },
    }
}

#[via_fn]
proof fn p_factor_decreases(chars: Seq<char>, s: PState) {
    lemma_take(chars, s);
}

pub open spec fn opt_token_view(t: Option<Token>) -> Option<TokenView> {
    match t {
        Some(t) => Some(t@),
        None => None,
    }
}

pub open spec fn opt_ref_token_view(t: Option<&Token>) -> Option<TokenView> {
    match t {
        Some(t) => Some(t@),
        None => None,
    }
}

pub open spec fn opt_block_view(b: Option<Block>) -> Option<Seq<StmView>> {
    match b {
        Some(b) => Some(b@),
        None => None,
    }
}

/// `text` between backquotes.
fn quoted_text(text: String) -> (r: String)
    ensures
        r@ == quoted(text@),
{
    let mut r = String::from_str("`");
    r.append(text.as_str());
    r.append("`");
    r
}

/// A recursive-descent parser with one token of lookahead.
pub struct Parser<I> where I: Input {
    lexer: Lexer<I>,
    ahead: Option<Token>,
    cursor: Cursor,
}

impl<I> Parser<I> where I: Input {
    /// The text being parsed.
    pub closed spec fn chars(&self) -> Seq<char> {
        self.lexer.chars()
    }

    /// Where the parser stands in the token stream.
    pub closed spec fn state(&self) -> PState {
        PState { pos: self.lexer.pos(), ahead: opt_token_view(self.ahead) }
    }

    pub closed spec fn wf(&self) -> bool {
        &&& self.lexer.wf()
        &&& self.ahead is Some ==> self.cursor@ == cursor_at(self.lexer.chars(), self.lexer.pos())
    }

    pub fn new(input: I) -> (r: Self)
        requires
            input.wf(),
        ensures
            r.wf(),
            r.chars() == input.chars(),
            r.state() == (PState { pos: input.pos(), ahead: None }),
    {
        Parser { lexer: Lexer::new(input), ahead: None, cursor: Cursor { line: 0, column: 0 } }
    }

    /// Parses the whole input as a program.
    pub fn parse_program(&mut self) -> (r: ParserResult<Program>)
        requires
            old(self).wf(),
        ensures
            final(self).wf(),
            final(self).chars() == old(self).chars(),
            match r {
                Ok(p) => p_program(old(self).chars(), old(self).state()) == Ok::<
                    (Seq<StmView>, PState),
                    ErrorView,
                >((p@, final(self).state())),
                Err(e) => p_program(old(self).chars(), old(self).state()) == Err::<
                    (Seq<StmView>, PState),
                    ErrorView,
                >(e@),
            },
    {
        let stms = self.parse_stm_list()?;
        if self.peek_token()?.is_some() {
            return Err(self.current_error(String::from_str("end of input"))?);
        }
        Ok(Program { stms })
    }

    fn parse_stm_list(&mut self) -> (r: ParserResult<Vec<Statement>>)
        requires
            old(self).wf(),
        ensures
            final(self).wf(),
            final(self).chars() == old(self).chars(),
            match r {
                Ok(v) => p_stm_list(old(self).chars(), old(self).state()) == Ok::<
                    (Seq<StmView>, PState),
                    ErrorView,
                >((crate::ast::stms_view(v@), final(self).state())),
                Err(e) => p_stm_list(old(self).chars(), old(self).state()) == Err::<
                    (Seq<StmView>, PState),
                    ErrorView,
                >(e@),
            },
            r is Ok ==> measure(final(self).chars(), final(self).state()) <= measure(
                old(self).chars(),
                old(self).state(),
            ),
        decreases measure(old(self).chars(), old(self).state()), 10nat,
    {
        let ghost chars = self.chars();
        let ghost s0 = self.state();
        let mut stms: Vec<Statement> = Vec::new();
        loop
            invariant
                self.wf(),
                self.chars() == chars,
                chars == old(self).chars(),
                s0 == old(self).state(),
                measure(chars, self.state()) <= measure(chars, s0),
                p_stm_list(chars, s0) == match p_stm_list(chars, self.state()) {
                    Ok((rest, e)) => Ok((crate::ast::stms_view(stms@) + rest, e)),
                    Err(x) => Err(x),
                },
            decreases measure(chars, self.state()),
        {
            let ghost cur = self.state();
            proof {
                lemma_fill(chars, cur);
            }
            let more = self.starts_stm()?;
            if !more {
                assert(crate::ast::stms_view(stms@) + Seq::<StmView>::empty() =~= crate::ast::stms_view(stms@));
                return Ok(stms);
            }
            let stm = self.parse_stm()?;
            let ghost old_stms = stms@;
            stms.push(stm);
            proof {
                assert(stms@.drop_last() =~= old_stms);
                let v = crate::ast::stms_view(old_stms);
                match p_stm_list(chars, self.state()) {
                    Ok((rest, e)) => {
                        assert(v + (seq![stm@] + rest) =~= v.push(stm@) + rest);
                    },
                    Err(x) => {},
                }
            }
        }
    }

    fn parse_stm(&mut self) -> (r: ParserResult<Statement>)
        requires
            old(self).wf(),
        ensures
            final(self).wf(),
            final(self).chars() == old(self).chars(),
            match r {
                Ok(v) => p_stm(old(self).chars(), old(self).state()) == Ok::<
                    (StmView, PState),
                    ErrorView,
                >((v@, final(self).state())),
                Err(e) => p_stm(old(self).chars(), old(self).state()) == Err::<
                    (StmView, PState),
                    ErrorView,
                >(e@),
            },
            r is Ok ==> measure(final(self).chars(), final(self).state()) < measure(
                old(self).chars(),
                old(self).state(),
            ),
        decreases measure(old(self).chars(), old(self).state()), 9nat,
    {
        proof {
            lemma_fill(self.chars(), self.state());
        }
        match self.peek_token()? {
            Some(Token::Keyword(KeywordToken::I32)) => Ok(Statement::Decl(self.parse_decl_stm()?)),
            Some(Token::Identifier(_)) => Ok(Statement::Assign(self.parse_assign_stm()?)),
            Some(Token::Keyword(KeywordToken::If)) => Ok(Statement::If(self.parse_if_stm()?)),
            Some(Token::Keyword(KeywordToken::While)) => Ok(
                Statement::While(self.parse_while_stm()?),
            ),
            _ => Err(self.current_error(String::from_str("start of statement"))?),
        }
    }

    fn parse_decl_stm(&mut self) -> (r: ParserResult<DeclStatement>)
        requires
            old(self).wf(),
        ensures
            final(self).wf(),
            final(self).chars() == old(self).chars(),
            match r {
                Ok(v) => p_decl(old(self).chars(), old(self).state()) == Ok::<
                    ((Seq<char>, ExprView), PState),
                    ErrorView,
                >(((v.name@, v.init@), final(self).state())),
                Err(e) => p_decl(old(self).chars(), old(self).state()) == Err::<
                    ((Seq<char>, ExprView), PState),
                    ErrorView,
                >(e@),
            },
            r is Ok ==> measure(final(self).chars(), final(self).state()) < measure(
                old(self).chars(),
                old(self).state(),
            ),
        decreases measure(old(self).chars(), old(self).state()), 8nat,
    {
        self.expect_keyword(KeywordToken::I32)?;
        let name = self.expect_identifier()?;
        self.expect_operator(OperatorToken::Assign)?;
        let init = self.parse_arith_expr()?;
        self.expect_punctuation(PunctuationToken::Semicolon)?;
        Ok(DeclStatement { name, init })
    }

    fn parse_assign_stm(&mut self) -> (r: ParserResult<AssignStatement>)
        requires
            old(self).wf(),
        ensures
            final(self).wf(),
            final(self).chars() == old(self).chars(),
            match r {
                Ok(v) => p_assign(old(self).chars(), old(self).state()) == Ok::<
                    ((Seq<char>, ExprView), PState),
                    ErrorView,
                >(((v.name@, v.value@), final(self).state())),
                Err(e) => p_assign(old(self).chars(), old(self).state()) == Err::<
                    ((Seq<char>, ExprView), PState),
                    ErrorView,
                >(e@),
            },
            r is Ok ==> measure(final(self).chars(), final(self).state()) < measure(
                old(self).chars(),
                old(self).state(),
            ),
        decreases measure(old(self).chars(), old(self).state()), 8nat,
    {
        let name = self.expect_identifier()?;
        self.expect_operator(OperatorToken::Assign)?;
        let value = self.parse_arith_expr()?;
        self.expect_punctuation(PunctuationToken::Semicolon)?;
        Ok(AssignStatement { name, value })
    }

    fn parse_if_stm(&mut self) -> (r: ParserResult<IfStatement>)
        requires
            old(self).wf(),
        ensures
            final(self).wf(),
            final(self).chars() == old(self).chars(),
            match r {
                Ok(v) => p_if(old(self).chars(), old(self).state()) == Ok::<
                    ((ExprView, Seq<StmView>, Option<Seq<StmView>>), PState),
                    ErrorView,
                >(((v.cond@, v.then_block@, opt_block_view(v.else_block)), final(self).state())),
                Err(e) => p_if(old(self).chars(), old(self).state()) == Err::<
                    ((ExprView, Seq<StmView>, Option<Seq<StmView>>), PState),
                    ErrorView,
                >(e@),
            },
            r is Ok ==> measure(final(self).chars(), final(self).state()) < measure(
                old(self).chars(),
                old(self).state(),
            ),
        decreases measure(old(self).chars(), old(self).state()), 8nat,
    {
        self.expect_keyword(KeywordToken::If)?;
        self.expect_punctuation(PunctuationToken::ParenLeft)?;
        let cond = self.parse_bool_expr()?;
        self.expect_punctuation(PunctuationToken::ParenRight)?;
        let then_block = self.parse_block()?;
        let else_block = self.parse_else_part()?;
        Ok(IfStatement { cond, then_block, else_block })
    }

    fn parse_else_part(&mut self) -> (r: ParserResult<Option<Block>>)
        requires
            old(self).wf(),
        ensures
            final(self).wf(),
            final(self).chars() == old(self).chars(),
            match r {
                Ok(v) => p_else(old(self).chars(), old(self).state()) == Ok::<
                    (Option<Seq<StmView>>, PState),
                    ErrorView,
                >((opt_block_view(v), final(self).state())),
                Err(e) => p_else(old(self).chars(), old(self).state()) == Err::<
                    (Option<Seq<StmView>>, PState),
                    ErrorView,
                >(e@),
            },
            r is Ok ==> measure(final(self).chars(), final(self).state()) <= measure(
                old(self).chars(),
                old(self).state(),
            ),
        decreases measure(old(self).chars(), old(self).state()), 7nat,
    {
        proof {
            lemma_fill(self.chars(), self.state());
        }
        match self.peek_token()? {
            Some(Token::Keyword(KeywordToken::Else)) => {
                self.expect_keyword(KeywordToken::Else)?;
                Ok(Some(self.parse_block()?))
            },
            _ => Ok(None),
        }
    }

    fn parse_while_stm(&mut self) -> (r: ParserResult<WhileStatement>)
        requires
            old(self).wf(),
        ensures
            final(self).wf(),
            final(self).chars() == old(self).chars(),
            match r {
                Ok(v) => p_while(old(self).chars(), old(self).state()) == Ok::<
                    ((ExprView, Seq<StmView>), PState),
                    ErrorView,
                >(((v.cond@, v.body@), final(self).state())),
                Err(e) => p_while(old(self).chars(), old(self).state()) == Err::<
                    ((ExprView, Seq<StmView>), PState),
                    ErrorView,
                >(e@),
            },
            r is Ok ==> measure(final(self).chars(), final(self).state()) < measure(
                old(self).chars(),
                old(self).state(),
            ),
        decreases measure(old(self).chars(), old(self).state()), 8nat,
    {
        self.expect_keyword(KeywordToken::While)?;
        self.expect_punctuation(PunctuationToken::ParenLeft)?;
        let cond = self.parse_bool_expr()?;
        self.expect_punctuation(PunctuationToken::ParenRight)?;
        let body = self.parse_block()?;
        Ok(WhileStatement { cond, body })
    }

    fn parse_block(&mut self) -> (r: ParserResult<Block>)
        requires
            old(self).wf(),
        ensures
            final(self).wf(),
            final(self).chars() == old(self).chars(),
            match r {
                Ok(v) => p_block(old(self).chars(), old(self).state()) == Ok::<
                    (Seq<StmView>, PState),
                    ErrorView,
                >((v@, final(self).state())),
                Err(e) => p_block(old(self).chars(), old(self).state()) == Err::<
                    (Seq<StmView>, PState),
                    ErrorView,
                >(e@),
            },
            r is Ok ==> measure(final(self).chars(), final(self).state()) < measure(
                old(self).chars(),
                old(self).state(),
            ),
        decreases measure(old(self).chars(), old(self).state()), 7nat,
    {
        self.expect_punctuation(PunctuationToken::BraceLeft)?;
        let stms = self.parse_stm_list()?;
        self.expect_punctuation(PunctuationToken::BraceRight)?;
        Ok(Block { stms })
    }

    fn parse_bool_expr(&mut self) -> (r: ParserResult<Expression>)
        requires
            old(self).wf(),
        ensures
            final(self).wf(),
            final(self).chars() == old(self).chars(),
            match r {
                Ok(v) => p_bool(old(self).chars(), old(self).state()) == Ok::<
                    (ExprView, PState),
                    ErrorView,
                >((v@, final(self).state())),
                Err(e) => p_bool(old(self).chars(), old(self).state()) == Err::<
                    (ExprView, PState),
                    ErrorView,
                >(e@),
            },
            r is Ok ==> measure(final(self).chars(), final(self).state()) < measure(
                old(self).chars(),
                old(self).state(),
            ),
        decreases measure(old(self).chars(), old(self).state()), 7nat,
    {
        let left = self.parse_arith_expr()?;
        let oper = self.parse_rel_oper()?;
        let right = self.parse_arith_expr()?;
        Ok(Expression::Binary { oper, left: Box::new(left), right: Box::new(right) })
    }

    fn parse_rel_oper(&mut self) -> (r: ParserResult<BinaryOperator>)
        requires
            old(self).wf(),
        ensures
            final(self).wf(),
            final(self).chars() == old(self).chars(),
            match r {
                Ok(v) => p_rel(old(self).chars(), old(self).state()) == Ok::<
                    (BinaryOperator, PState),
                    ErrorView,
                >((v, final(self).state())),
                Err(e) => p_rel(old(self).chars(), old(self).state()) == Err::<
                    (BinaryOperator, PState),
                    ErrorView,
                >(e@),
            },
            r is Ok ==> measure(final(self).chars(), final(self).state()) < measure(
                old(self).chars(),
                old(self).state(),
            ),
    {
        proof {
            lemma_take(self.chars(), self.state());
        }
        match self.take_token()? {
            (Some(Token::Operator(OperatorToken::Equal)), _) => Ok(BinaryOperator::Equal),
            (Some(Token::Operator(OperatorToken::Less)), _) => Ok(BinaryOperator::Less),
            (Some(found), cursor) => Err(
                Error::UnexpectedToken {
                    expected: String::from_str("`==` or `<`"),
                    found,
                    cursor,
                },
            ),
            (None, cursor) => Err(
                Error::UnexpectedEndOfInput { expected: String::from_str("`==` or `<`"), cursor },
            ),
        }
    }

    fn parse_arith_expr(&mut self) -> (r: ParserResult<Expression>)
        requires
            old(self).wf(),
        ensures
            final(self).wf(),
            final(self).chars() == old(self).chars(),
            match r {
                Ok(v) => p_arith(old(self).chars(), old(self).state()) == Ok::<
                    (ExprView, PState),
                    ErrorView,
                >((v@, final(self).state())),
                Err(e) => p_arith(old(self).chars(), old(self).state()) == Err::<
                    (ExprView, PState),
                    ErrorView,
                >(e@),
            },
            r is Ok ==> measure(final(self).chars(), final(self).state()) < measure(
                old(self).chars(),
                old(self).state(),
            ),
        decreases measure(old(self).chars(), old(self).state()), 6nat,
    {
        let ghost chars = self.chars();
        let ghost s0 = self.state();
        let mut left = self.parse_term()?;
        loop
            invariant
                self.wf(),
                self.chars() == chars,
                chars == old(self).chars(),
                s0 == old(self).state(),
                measure(chars, self.state()) < measure(chars, s0),
                p_arith(chars, s0) == p_arith_tail(chars, left@, self.state()),
            decreases measure(chars, self.state()),
        {
            proof {
                lemma_fill(chars, self.state());
            }
            let more = self.peek_operator(OperatorToken::Add)?;
            if !more {
                return Ok(left);
            }
            self.expect_operator(OperatorToken::Add)?;
            let right = self.parse_term()?;
            left = Expression::Binary {
                oper: BinaryOperator::Add,
                left: Box::new(left),
                right: Box::new(right),
            };
        }
    }

    fn parse_term(&mut self) -> (r: ParserResult<Expression>)
        requires
            old(self).wf(),
        ensures
            final(self).wf(),
            final(self).chars() == old(self).chars(),
            match r {
                Ok(v) => p_term(old(self).chars(), old(self).state()) == Ok::<
                    (ExprView, PState),
                    ErrorView,
                >((v@, final(self).state())),
                Err(e) => p_term(old(self).chars(), old(self).state()) == Err::<
                    (ExprView, PState),
                    ErrorView,
                >(e@),
            },
            r is Ok ==> measure(final(self).chars(), final(self).state()) < measure(
                old(self).chars(),
                old(self).state(),
            ),
        decreases measure(old(self).chars(), old(self).state()), 4nat,
    {
        let ghost chars = self.chars();
        let ghost s0 = self.state();
        let mut left = self.parse_factor()?;
        loop
            invariant
                self.wf(),
                self.chars() == chars,
                chars == old(self).chars(),
                s0 == old(self).state(),
                measure(chars, self.state()) < measure(chars, s0),
                p_term(chars, s0) == p_term_tail(chars, left@, self.state()),
            decreases measure(chars, self.state()),
        {
            proof {
                lemma_fill(chars, self.state());
            }
            let more = self.peek_operator(OperatorToken::Mul)?;
            if !more {
                return Ok(left);
            }
            self.expect_operator(OperatorToken::Mul)?;
            let right = self.parse_factor()?;
            left = Expression::Binary {
                oper: BinaryOperator::Mul,
                left: Box::new(left),
                right: Box::new(right),
            };
        }
    }

    fn parse_factor(&mut self) -> (r: ParserResult<Expression>)
        requires
            old(self).wf(),
        ensures
            final(self).wf(),
            final(self).chars() == old(self).chars(),
            match r {
                Ok(v) => p_factor(old(self).chars(), old(self).state()) == Ok::<
                    (ExprView, PState),
                    ErrorView,
                >((v@, final(self).state())),
                Err(e) => p_factor(old(self).chars(), old(self).state()) == Err::<
                    (ExprView, PState),
                    ErrorView,
                >(e@),
            },
            r is Ok ==> measure(final(self).chars(), final(self).state()) < measure(
                old(self).chars(),
                old(self).state(),
            ),
        decreases measure(old(self).chars(), old(self).state()), 2nat,
    {
        proof {
            lemma_take(self.chars(), self.state());
        }
        match self.take_token()? {
            (Some(Token::Identifier(name)), _) => Ok(Expression::Identifier { name }),
            (Some(Token::Integer(value)), _) => Ok(Expression::Integer { value }),
            (Some(Token::Punctuation(PunctuationToken::ParenLeft)), _) => {
                let expr = self.parse_arith_expr()?;
                self.expect_punctuation(PunctuationToken::ParenRight)?;
                Ok(expr)
            },
            (Some(found), cursor) => Err(
                Error::UnexpectedToken {
                    expected: String::from_str("identifier, integer, or `(`"),
                    found,
                    cursor,
                },
            ),
            (None, cursor) => Err(
                Error::UnexpectedEndOfInput {
                    expected: String::from_str("identifier, integer, or `(`"),
                    cursor,
                },
            ),
        }
    }

    fn starts_stm(&mut self) -> (r: ParserResult<bool>)
        requires
            old(self).wf(),
        ensures
            final(self).wf(),
            final(self).chars() == old(self).chars(),
            match r {
                Ok(b) => spec_fill(old(self).chars(), old(self).state()) == Ok::<PState, ErrorView>(
                    final(self).state(),
                ) && b == starts_stm(final(self).state().ahead),
                Err(e) => spec_fill(old(self).chars(), old(self).state()) == Err::<
                    PState,
                    ErrorView,
                >(e@),
            },
    {
        Ok(
            matches!(
                self.peek_token()?,
                Some(Token::Keyword(KeywordToken::I32)) | Some(Token::Identifier(_)) | Some(
                    Token::Keyword(KeywordToken::If),
                ) | Some(Token::Keyword(KeywordToken::While))
            ),
        )
    }

    fn peek_operator(&mut self, expected: OperatorToken) -> (r: ParserResult<bool>)
        requires
            old(self).wf(),
        ensures
            final(self).wf(),
            final(self).chars() == old(self).chars(),
            match r {
                Ok(b) => spec_fill(old(self).chars(), old(self).state()) == Ok::<PState, ErrorView>(
                    final(self).state(),
                ) && b == (final(self).state().ahead == Some(TokenView::Operator(expected))),
                Err(e) => spec_fill(old(self).chars(), old(self).state()) == Err::<
                    PState,
                    ErrorView,
                >(e@),
            },
    {
        Ok(matches!(self.peek_token()?, Some(Token::Operator(op)) if *op == expected))
    }

    fn expect_keyword(&mut self, expected: KeywordToken) -> (r: ParserResult<()>)
        requires
            old(self).wf(),
        ensures
            final(self).wf(),
            final(self).chars() == old(self).chars(),
            match r {
                Ok(_) => spec_expect(
                    old(self).chars(),
                    old(self).state(),
                    TokenView::Keyword(expected),
                ) == Ok::<PState, ErrorView>(final(self).state()),
                Err(e) => spec_expect(
                    old(self).chars(),
                    old(self).state(),
                    TokenView::Keyword(expected),
                ) == Err::<PState, ErrorView>(e@),
            },
            r is Ok ==> measure(final(self).chars(), final(self).state()) < measure(
                old(self).chars(),
                old(self).state(),
            ),
    {
        proof {
            lemma_expect(self.chars(), self.state(), TokenView::Keyword(expected));
        }
        match self.take_token()? {
            (Some(Token::Keyword(found)), _) if found == expected => Ok(()),
            (Some(found), cursor) => Err(
                Error::UnexpectedToken {
                    expected: quoted_text(expected.to_string()),
                    found,
                    cursor,
                },
            ),
            (None, cursor) => Err(
                Error::UnexpectedEndOfInput {
                    expected: quoted_text(expected.to_string()),
                    cursor,
                },
            ),
        }
    }

    fn expect_operator(&mut self, expected: OperatorToken) -> (r: ParserResult<()>)
        requires
            old(self).wf(),
        ensures
            final(self).wf(),
            final(self).chars() == old(self).chars(),
            match r {
                Ok(_) => spec_expect(
                    old(self).chars(),
                    old(self).state(),
                    TokenView::Operator(expected),
                ) == Ok::<PState, ErrorView>(final(self).state()),
                Err(e) => spec_expect(
                    old(self).chars(),
                    old(self).state(),
                    TokenView::Operator(expected),
                ) == Err::<PState, ErrorView>(e@),
            },
            r is Ok ==> measure(final(self).chars(), final(self).state()) < measure(
                old(self).chars(),
                old(self).state(),
            ),
    {
        proof {
            lemma_expect(self.chars(), self.state(), TokenView::Operator(expected));
        }
        match self.take_token()? {
            (Some(Token::Operator(found)), _) if found == expected => Ok(()),
            (Some(found), cursor) => Err(
                Error::UnexpectedToken {
                    expected: quoted_text(expected.to_string()),
                    found,
                    cursor,
                },
            ),
            (None, cursor) => Err(
                Error::UnexpectedEndOfInput {
                    expected: quoted_text(expected.to_string()),
                    cursor,
                },
            ),
        }
    }

    fn expect_punctuation(&mut self, expected: PunctuationToken) -> (r: ParserResult<()>)
        requires
            old(self).wf(),
        ensures
            final(self).wf(),
            final(self).chars() == old(self).chars(),
            match r {
                Ok(_) => spec_expect(
                    old(self).chars(),
                    old(self).state(),
                    TokenView::Punctuation(expected),
                ) == Ok::<PState, ErrorView>(final(self).state()),
                Err(e) => spec_expect(
                    old(self).chars(),
                    old(self).state(),
                    TokenView::Punctuation(expected),
                ) == Err::<PState, ErrorView>(e@),
            },
            r is Ok ==> measure(final(self).chars(), final(self).state()) < measure(
                old(self).chars(),
                old(self).state(),
            ),
    {
        proof {
            lemma_expect(self.chars(), self.state(), TokenView::Punctuation(expected));
        }
        match self.take_token()? {
            (Some(Token::Punctuation(found)), _) if found == expected => Ok(()),
            (Some(found), cursor) => Err(
                Error::UnexpectedToken {
                    expected: quoted_text(expected.to_string()),
                    found,
                    cursor,
                },
            ),
            (None, cursor) => Err(
                Error::UnexpectedEndOfInput {
                    expected: quoted_text(expected.to_string()),
                    cursor,
                },
            ),
        }
    }

    fn expect_identifier(&mut self) -> (r: ParserResult<String>)
        requires
            old(self).wf(),
        ensures
            final(self).wf(),
            final(self).chars() == old(self).chars(),
            match r {
                Ok(name) => spec_expect_identifier(old(self).chars(), old(self).state()) == Ok::<
                    (Seq<char>, PState),
                    ErrorView,
                >((name@, final(self).state())),
                Err(e) => spec_expect_identifier(old(self).chars(), old(self).state()) == Err::<
                    (Seq<char>, PState),
                    ErrorView,
                >(e@),
            },
            r is Ok ==> measure(final(self).chars(), final(self).state()) < measure(
                old(self).chars(),
                old(self).state(),
            ),
    {
        proof {
            lemma_expect(self.chars(), self.state(), TokenView::Integer(0));
        }
        match self.take_token()? {
            (Some(Token::Identifier(name)), _) => Ok(name),
            (Some(found), cursor) => Err(
                Error::UnexpectedToken { expected: String::from_str("identifier"), found, cursor },
            ),
            (None, cursor) => Err(
                Error::UnexpectedEndOfInput { expected: String::from_str("identifier"), cursor },
            ),
        }
    }

    fn peek_token(&mut self) -> (r: ParserResult<Option<&Token>>)
        requires
            old(self).wf(),
        ensures
            final(self).wf(),
            final(self).chars() == old(self).chars(),
            match r {
                Ok(t) => spec_fill(old(self).chars(), old(self).state()) == Ok::<PState, ErrorView>(
                    final(self).state(),
                ) && opt_ref_token_view(t) == final(self).state().ahead,
                Err(e) => spec_fill(old(self).chars(), old(self).state()) == Err::<
                    PState,
                    ErrorView,
                >(e@),
            },
    {
        self.fill_ahead()?;
        Ok(self.ahead.as_ref())
    }

    fn take_token(&mut self) -> (r: ParserResult<(Option<Token>, Cursor)>)
        requires
            old(self).wf(),
        ensures
            final(self).wf(),
            final(self).chars() == old(self).chars(),
            match r {
                Ok((t, cursor)) => spec_take(old(self).chars(), old(self).state()) == Ok::<
                    (Option<TokenView>, (nat, nat), PState),
                    ErrorView,
                >((opt_token_view(t), cursor@, final(self).state())),
                Err(e) => spec_take(old(self).chars(), old(self).state()) == Err::<
                    (Option<TokenView>, (nat, nat), PState),
                    ErrorView,
                >(e@),
            },
    {
        proof {
            reveal(spec_fill);
        }
        if self.ahead.is_none() {
            self.fill_ahead()?;
        }
        Ok((self.ahead.take(), self.cursor))
    }

    fn fill_ahead(&mut self) -> (r: ParserResult<()>)
        requires
            old(self).wf(),
        ensures
            final(self).wf(),
            final(self).chars() == old(self).chars(),
            match r {
                Ok(_) => spec_fill(old(self).chars(), old(self).state()) == Ok::<PState, ErrorView>(
                    final(self).state(),
                ) && final(self).cursor@ == cursor_at(final(self).chars(), final(self).state().pos),
                Err(e) => spec_fill(old(self).chars(), old(self).state()) == Err::<
                    PState,
                    ErrorView,
                >(e@) && final(self).state() == (PState {
                    pos: lex_next(old(self).chars(), old(self).state().pos).1,
                    ahead: None,
                }),
            },
    {
        proof {
            reveal(spec_fill);
        }
        if self.ahead.is_some() {
            return Ok(());
        }
        match self.lexer.next_token() {
            Ok(Some(token)) => {
                self.cursor = self.lexer.cursor();
                self.ahead = Some(token);
                Ok(())
            },
            Ok(None) => {
                self.cursor = self.lexer.cursor();
                self.ahead = None;
                Ok(())
            },
            Err(err) => Err(Error::Lex { err, cursor: self.lexer.cursor() }),
        }
    }

    fn current_error(&mut self, expected: String) -> (r: ParserResult<Error>)
        requires
            old(self).wf(),
        ensures
            final(self).wf(),
            final(self).chars() == old(self).chars(),
            match r {
                Ok(e) => spec_current_error(old(self).chars(), old(self).state(), expected@)
                    == Ok::<(ErrorView, PState), ErrorView>((e@, final(self).state())),
                Err(e) => spec_current_error(old(self).chars(), old(self).state(), expected@)
                    == Err::<(ErrorView, PState), ErrorView>(e@),
            },
    {
        self.fill_ahead()?;
        Ok(
            match &self.ahead {
                Some(token) => Error::UnexpectedToken {
                    expected,
                    found: token.duplicate(),
                    cursor: self.cursor,
                },
                None => Error::UnexpectedEndOfInput { expected, cursor: self.cursor },
            },
        )
    }
}

} // verus!
