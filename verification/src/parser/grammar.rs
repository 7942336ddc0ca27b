//! The grammar of the language over tokens, production by production: a
//! derivation (`ParseStmList` and the types below it) spells a sequence of
//! tokens (its yield) and builds a syntax tree. The parser accepts exactly
//! the sentences of this grammar: every program it accepts is the yield of a
//! derivation whose tree it returns, and every text whose tokens are the
//! yield of a derivation is accepted with that derivation's tree.
use vstd::prelude::*;

use crate::ast::{BinaryOperator, ExprView, StmView};
use crate::lexer::{lemma_end_of_input_is_stable, lemma_lex_next, lex_next};
use crate::lexer::result::ErrorView as LexerErrorView;
use crate::parser::{
    PState,
    binary,
    lemma_expect,
    lemma_fill,
    lemma_take,
    measure,
    remaining,
    spec_expect,
    spec_expect_identifier,
    spec_fill,
    spec_take,
    p_factor,
    p_term,
    p_term_tail,
    p_arith,
    p_arith_tail,
    p_rel,
    p_bool,
    p_block,
    p_else,
    p_stm,
    p_stm_list,
    p_decl,
    p_assign,
    p_if,
    p_while,
    p_program,
    starts_stm,
};
use crate::token::{KeywordToken, OperatorToken, PunctuationToken, TokenView};

verus! {

pub open spec fn kw(k: KeywordToken) -> TokenView {
    TokenView::Keyword(k)
}

pub open spec fn op(o: OperatorToken) -> TokenView {
    TokenView::Operator(o)
}

pub open spec fn pu(p: PunctuationToken) -> TokenView {
    TokenView::Punctuation(p)
}

/// The tokens of the text from position `i` on, up to the end of the input
/// or the first lexing error, and whether the end was reached without error.
pub open spec fn tokens_from(chars: Seq<char>, i: int) -> (Seq<TokenView>, bool)
    decreases remaining(chars, i),
{
    let (r, j) = lex_next(chars, i);
    match r {
        Ok(Some(t)) => {
            proof {
                lemma_lex_next(chars, i);
            }
            let (rest, ends) = tokens_from(chars, j);
            (seq![t] + rest, ends)
        },
        Ok(None) => (Seq::empty(), true),
        Err(_) => (Seq::empty(), false),
    }
}

/// The tokens still to come for the parser in state `s`: the token read
/// ahead, if any, then those lexed from its position on.
pub open spec fn stream(chars: Seq<char>, s: PState) -> Seq<TokenView> {
    match s.ahead {
        Some(t) => seq![t] + tokens_from(chars, s.pos).0,
        None => tokens_from(chars, s.pos).0,
    }
}

/// Going from state `s` to state `s2` takes the tokens `toks` off the stream.
pub open spec fn consumes(chars: Seq<char>, s: PState, s2: PState, toks: Seq<TokenView>) -> bool {
    &&& stream(chars, s) == toks + stream(chars, s2)
    &&& tokens_from(chars, s.pos).1 == tokens_from(chars, s2.pos).1
}

pub open spec fn valid(chars: Seq<char>, s: PState) -> bool {
    0 <= s.pos <= chars.len()
}

pub open spec fn opt_seq(t: Option<TokenView>) -> Seq<TokenView> {
    match t {
        Some(x) => seq![x],
        None => Seq::empty(),
    }
}

/// A derivation from `RelOp -> == | <`.
pub enum ParseRel {
    Equal,
    Less,
}

/// A derivation from `Factor -> id | num | ( ArithExpr )`.
pub enum ParseFactor {
    Id(Seq<char>),
    Num(i64),
    Paren(Box<ParseArith>),
}

/// A derivation from `TermTail -> * Factor TermTail | ε`.
pub enum ParseTermTail {
    Empty,
    Mul(ParseFactor, Box<ParseTermTail>),
}

/// A derivation from `Term -> Factor TermTail`.
pub struct ParseTerm {
    pub factor: ParseFactor,
    pub tail: ParseTermTail,
}

/// A derivation from `ArithTail -> + Term ArithTail | ε`.
pub enum ParseArithTail {
    Empty,
    Add(ParseTerm, Box<ParseArithTail>),
}

/// A derivation from `ArithExpr -> Term ArithTail`.
pub struct ParseArith {
    pub term: ParseTerm,
    pub tail: ParseArithTail,
}

/// A derivation from `BoolExpr -> ArithExpr RelOp ArithExpr`.
pub struct ParseBool {
    pub left: ParseArith,
    pub rel: ParseRel,
    pub right: ParseArith,
}

/// A derivation from `Stm`: `DeclStm -> i32 id = ArithExpr ;`,
/// `AssignStm -> id = ArithExpr ;`, `IfStm -> if ( BoolExpr ) Block ElsePart`
/// or `WhileStm -> while ( BoolExpr ) Block`.
pub enum ParseStm {
    Decl(Seq<char>, ParseArith),
    Assign(Seq<char>, ParseArith),
    If(ParseBool, ParseBlock, ParseElse),
    While(ParseBool, ParseBlock),
}

/// A derivation from `ElsePart -> else Block | ε`.
pub enum ParseElse {
    Empty,
    Else(ParseBlock),
}

/// A derivation from `Block -> { StmList }`.
pub struct ParseBlock {
    pub stms: ParseStmList,
}

/// A derivation from `StmList -> Stm StmList | ε`.
pub enum ParseStmList {
    Empty,
    Cons(Box<ParseStm>, Box<ParseStmList>),
}

pub open spec fn rel_yield(d: ParseRel) -> Seq<TokenView> {
    match d {
        ParseRel::Equal => seq![op(OperatorToken::Equal)],
        ParseRel::Less => seq![op(OperatorToken::Less)],
    }
}

pub open spec fn rel_tree(d: ParseRel) -> BinaryOperator {
    match d {
        ParseRel::Equal => BinaryOperator::Equal,
        ParseRel::Less => BinaryOperator::Less,
    }
}

/// The tokens a factor derivation spells, left to right.
pub open spec fn factor_yield(d: ParseFactor) -> Seq<TokenView>
    decreases d,
{
    match d {
        ParseFactor::Id(n) => seq![TokenView::Identifier(n)],
        ParseFactor::Num(v) => seq![TokenView::Integer(v)],
        ParseFactor::Paren(a) => seq![pu(PunctuationToken::ParenLeft)] + arith_yield(*a) + seq![
            pu(PunctuationToken::ParenRight),
        ],
    }
}

pub open spec fn term_tail_yield(d: ParseTermTail) -> Seq<TokenView>
    decreases d,
{
    match d {
        ParseTermTail::Empty => Seq::empty(),
        ParseTermTail::Mul(f, rest) => seq![op(OperatorToken::Mul)] + factor_yield(f)
            + term_tail_yield(*rest),
    }
}

pub open spec fn term_yield(d: ParseTerm) -> Seq<TokenView>
    decreases d,
{
    factor_yield(d.factor) + term_tail_yield(d.tail)
}

pub open spec fn arith_tail_yield(d: ParseArithTail) -> Seq<TokenView>
    decreases d,
{
    match d {
        ParseArithTail::Empty => Seq::empty(),
        ParseArithTail::Add(t, rest) => seq![op(OperatorToken::Add)] + term_yield(t)
            + arith_tail_yield(*rest),
    }
}

pub open spec fn arith_yield(d: ParseArith) -> Seq<TokenView>
    decreases d,
{
    term_yield(d.term) + arith_tail_yield(d.tail)
}

/// The expression tree a factor derivation builds.
pub open spec fn factor_tree(d: ParseFactor) -> ExprView
    decreases d,
{
    match d {
        ParseFactor::Id(n) => ExprView::Identifier(n),
        ParseFactor::Num(v) => ExprView::Integer(v),
        ParseFactor::Paren(a) => arith_tree(*a),
    }
}

/// The tree of a term whose part before `d` has tree `left`: products fold
/// to the left.
pub open spec fn term_tail_tree(d: ParseTermTail, left: ExprView) -> ExprView
    decreases d,
{
    match d {
        ParseTermTail::Empty => left,
        ParseTermTail::Mul(f, rest) => term_tail_tree(
            *rest,
            binary(BinaryOperator::Mul, left, factor_tree(f)),
        ),
    }
}

pub open spec fn term_tree(d: ParseTerm) -> ExprView
    decreases d,
{
    term_tail_tree(d.tail, factor_tree(d.factor))
}

/// The tree of a sum whose part before `d` has tree `left`: sums fold to
/// the left.
pub open spec fn arith_tail_tree(d: ParseArithTail, left: ExprView) -> ExprView
    decreases d,
{
    match d {
        ParseArithTail::Empty => left,
        ParseArithTail::Add(t, rest) => arith_tail_tree(
            *rest,
            binary(BinaryOperator::Add, left, term_tree(t)),
        ),
    }
}

pub open spec fn arith_tree(d: ParseArith) -> ExprView
    decreases d,
{
    arith_tail_tree(d.tail, term_tree(d.term))
}

pub open spec fn bool_yield(d: ParseBool) -> Seq<TokenView> {
    arith_yield(d.left) + rel_yield(d.rel) + arith_yield(d.right)
}

pub open spec fn bool_tree(d: ParseBool) -> ExprView {
    binary(rel_tree(d.rel), arith_tree(d.left), arith_tree(d.right))
}

/// The tokens a statement derivation spells, left to right.
pub open spec fn stm_yield(d: ParseStm) -> Seq<TokenView>
    decreases d,
{
    match d {
        ParseStm::Decl(n, a) => seq![
            kw(KeywordToken::I32),
            TokenView::Identifier(n),
            op(OperatorToken::Assign),
        ] + arith_yield(a) + seq![pu(PunctuationToken::Semicolon)],
        ParseStm::Assign(n, a) => seq![TokenView::Identifier(n), op(OperatorToken::Assign)]
            + arith_yield(a) + seq![pu(PunctuationToken::Semicolon)],
        ParseStm::If(c, b, e) => seq![kw(KeywordToken::If), pu(PunctuationToken::ParenLeft)]
            + bool_yield(c) + seq![pu(PunctuationToken::ParenRight)] + block_yield(b)
            + else_yield(e),
        ParseStm::While(c, b) => seq![kw(KeywordToken::While), pu(PunctuationToken::ParenLeft)]
            + bool_yield(c) + seq![pu(PunctuationToken::ParenRight)] + block_yield(b),
    }
}

pub open spec fn block_yield(d: ParseBlock) -> Seq<TokenView>
    decreases d,
{
    seq![pu(PunctuationToken::BraceLeft)] + stm_list_yield(d.stms) + seq![
        pu(PunctuationToken::BraceRight),
    ]
}

pub open spec fn else_yield(d: ParseElse) -> Seq<TokenView>
    decreases d,
{
    match d {
        ParseElse::Empty => Seq::empty(),
        ParseElse::Else(b) => seq![kw(KeywordToken::Else)] + block_yield(b),
    }
}

pub open spec fn stm_list_yield(d: ParseStmList) -> Seq<TokenView>
    decreases d,
{
    match d {
        ParseStmList::Empty => Seq::empty(),
        ParseStmList::Cons(s, rest) => stm_yield(*s) + stm_list_yield(*rest),
    }
}

/// The statement a statement derivation builds.
pub open spec fn stm_tree(d: ParseStm) -> StmView
    decreases d,
{
    match d {
        ParseStm::Decl(n, a) => StmView::Decl(n, arith_tree(a)),
        ParseStm::Assign(n, a) => StmView::Assign(n, arith_tree(a)),
        ParseStm::If(c, b, e) => StmView::If(bool_tree(c), block_tree(b), else_tree(e)),
        ParseStm::While(c, b) => StmView::While(bool_tree(c), block_tree(b)),
    }
}

pub open spec fn block_tree(d: ParseBlock) -> Seq<StmView>
    decreases d,
{
    stm_list_tree(d.stms)
}

pub open spec fn else_tree(d: ParseElse) -> Option<Seq<StmView>>
    decreases d,
{
    match d {
        ParseElse::Empty => None,
        ParseElse::Else(b) => Some(block_tree(b)),
    }
}

pub open spec fn stm_list_tree(d: ParseStmList) -> Seq<StmView>
    decreases d,
{
    match d {
        ParseStmList::Empty => Seq::empty(),
        ParseStmList::Cons(s, rest) => seq![stm_tree(*s)] + stm_list_tree(*rest),
    }
}

proof fn lemma_fill_stream(chars: Seq<char>, s: PState)
    requires
        valid(chars, s),
    ensures
        spec_fill(chars, s) matches Ok(s1) ==> {
            &&& valid(chars, s1)
            &&& measure(chars, s1) <= measure(chars, s)
            &&& consumes(chars, s, s1, Seq::empty())
        },
{
    reveal(spec_fill);
    lemma_fill(chars, s);
    if let Ok(s1) = spec_fill(chars, s) {
        assert(Seq::<TokenView>::empty() + stream(chars, s1) =~= stream(chars, s1));
        if s.ahead is None {
            lemma_lex_next(chars, s.pos);
            if s1.ahead is None {
                lemma_end_of_input_is_stable(chars, s.pos);
            }
        }
    }
}

proof fn lemma_take_stream(chars: Seq<char>, s: PState)
    requires
        valid(chars, s),
    ensures
        spec_take(chars, s) matches Ok((t, _, s2)) ==> {
            &&& valid(chars, s2)
            &&& measure(chars, s2) <= measure(chars, s)
            &&& (t is Some ==> measure(chars, s2) < measure(chars, s))
            &&& consumes(chars, s, s2, opt_seq(t))
        },
{
    lemma_fill_stream(chars, s);
    lemma_take(chars, s);
    if let Ok((t, _, s2)) = spec_take(chars, s) {
        let s1 = spec_fill(chars, s)->Ok_0;
        assert(stream(chars, s1) =~= opt_seq(t) + stream(chars, s2));
    }
}

proof fn lemma_expect_stream(chars: Seq<char>, s: PState, want: TokenView)
    requires
        valid(chars, s),
    ensures
        spec_expect(chars, s, want) matches Ok(s2) ==> {
            &&& valid(chars, s2)
            &&& measure(chars, s2) < measure(chars, s)
            &&& consumes(chars, s, s2, seq![want])
        },
        spec_expect_identifier(chars, s) matches Ok((name, s2)) ==> {
            &&& valid(chars, s2)
            &&& measure(chars, s2) < measure(chars, s)
            &&& consumes(chars, s, s2, seq![TokenView::Identifier(name)])
        },
{
    lemma_take_stream(chars, s);
    lemma_expect(chars, s, want);
}

proof fn lemma_consumes_trans(
    chars: Seq<char>,
    s: PState,
    s1: PState,
    s2: PState,
    a: Seq<TokenView>,
    b: Seq<TokenView>,
)
    requires
        consumes(chars, s, s1, a),
        consumes(chars, s1, s2, b),
    ensures
        consumes(chars, s, s2, a + b),
{
    assert(a + (b + stream(chars, s2)) =~= (a + b) + stream(chars, s2));
}

proof fn lemma_sound_factor(chars: Seq<char>, s: PState) -> (d: ParseFactor)
    requires
        valid(chars, s),
    ensures
        p_factor(chars, s) matches Ok((e, s2)) ==> {
            &&& valid(chars, s2)
            &&& measure(chars, s2) < measure(chars, s)
            &&& consumes(chars, s, s2, factor_yield(d))
            &&& factor_tree(d) == e
        },
    decreases measure(chars, s), 2nat,
{
    lemma_take_stream(chars, s);
    match spec_take(chars, s) {
        Err(_) => ParseFactor::Num(0),
        Ok((t, _, s1)) => match t {
            Some(TokenView::Identifier(name)) => ParseFactor::Id(name),
            Some(TokenView::Integer(v)) => ParseFactor::Num(v),
            Some(TokenView::Punctuation(PunctuationToken::ParenLeft)) => {
                let a = lemma_sound_arith(chars, s1);
                if let Ok((e, s2)) = p_arith(chars, s1) {
                    let close = pu(PunctuationToken::ParenRight);
                    lemma_expect_stream(chars, s2, close);
                    if let Ok(s3) = spec_expect(chars, s2, close) {
                        let open = seq![pu(PunctuationToken::ParenLeft)];
                        lemma_consumes_trans(chars, s, s1, s2, open, arith_yield(a));
                        lemma_consumes_trans(
                            chars,
                            s,
                            s2,
                            s3,
                            open + arith_yield(a),
                            seq![close],
                        );
                    }
                }
                ParseFactor::Paren(Box::new(a))
            },
            _ => ParseFactor::Num(0),
        },
    }
}

proof fn lemma_sound_term_tail(chars: Seq<char>, left: ExprView, s: PState) -> (d: ParseTermTail)
    requires
        valid(chars, s),
    ensures
        p_term_tail(chars, left, s) matches Ok((e, s2)) ==> {
            &&& valid(chars, s2)
            &&& measure(chars, s2) <= measure(chars, s)
            &&& consumes(chars, s, s2, term_tail_yield(d))
            &&& term_tail_tree(d, left) == e
        },
    decreases measure(chars, s), 3nat,
{
    lemma_fill_stream(chars, s);
    if let Ok(s1) = spec_fill(chars, s) {
        let star = op(OperatorToken::Mul);
        if s1.ahead == Some(star) {
            lemma_expect_stream(chars, s1, star);
            if let Ok(s2) = spec_expect(chars, s1, star) {
                let f = lemma_sound_factor(chars, s2);
                if let Ok((right, s3)) = p_factor(chars, s2) {
                    let next = binary(BinaryOperator::Mul, left, right);
                    let rest = lemma_sound_term_tail(chars, next, s3);
                    if let Ok((e, s4)) = p_term_tail(chars, next, s3) {
                        assert(Seq::<TokenView>::empty() + seq![star] =~= seq![star]);
                        lemma_consumes_trans(chars, s, s1, s2, Seq::empty(), seq![star]);
                        lemma_consumes_trans(chars, s, s2, s3, seq![star], factor_yield(f));
                        lemma_consumes_trans(
                            chars,
                            s,
                            s3,
                            s4,
                            seq![star] + factor_yield(f),
                            term_tail_yield(rest),
                        );
                    }
                    return ParseTermTail::Mul(f, Box::new(rest));
                }
            }
        }
    }
    ParseTermTail::Empty
}

proof fn lemma_sound_term(chars: Seq<char>, s: PState) -> (d: ParseTerm)
    requires
        valid(chars, s),
    ensures
        p_term(chars, s) matches Ok((e, s2)) ==> {
            &&& valid(chars, s2)
            &&& measure(chars, s2) < measure(chars, s)
            &&& consumes(chars, s, s2, term_yield(d))
            &&& term_tree(d) == e
        },
    decreases measure(chars, s), 4nat,
{
    let f = lemma_sound_factor(chars, s);
    if let Ok((left, s1)) = p_factor(chars, s) {
        let tail = lemma_sound_term_tail(chars, left, s1);
        if let Ok((e, s2)) = p_term_tail(chars, left, s1) {
            lemma_consumes_trans(chars, s, s1, s2, factor_yield(f), term_tail_yield(tail));
        }
        ParseTerm { factor: f, tail }
    } else {
        ParseTerm { factor: f, tail: ParseTermTail::Empty }
    }
}

proof fn lemma_sound_arith_tail(chars: Seq<char>, left: ExprView, s: PState) -> (d:
    ParseArithTail)
    requires
        valid(chars, s),
    ensures
        p_arith_tail(chars, left, s) matches Ok((e, s2)) ==> {
            &&& valid(chars, s2)
            &&& measure(chars, s2) <= measure(chars, s)
            &&& consumes(chars, s, s2, arith_tail_yield(d))
            &&& arith_tail_tree(d, left) == e
        },
    decreases measure(chars, s), 5nat,
{
    lemma_fill_stream(chars, s);
    if let Ok(s1) = spec_fill(chars, s) {
        let plus = op(OperatorToken::Add);
        if s1.ahead == Some(plus) {
            lemma_expect_stream(chars, s1, plus);
            if let Ok(s2) = spec_expect(chars, s1, plus) {
                let t = lemma_sound_term(chars, s2);
                if let Ok((right, s3)) = p_term(chars, s2) {
                    let next = binary(BinaryOperator::Add, left, right);
                    let rest = lemma_sound_arith_tail(chars, next, s3);
                    if let Ok((e, s4)) = p_arith_tail(chars, next, s3) {
                        assert(Seq::<TokenView>::empty() + seq![plus] =~= seq![plus]);
                        lemma_consumes_trans(chars, s, s1, s2, Seq::empty(), seq![plus]);
                        lemma_consumes_trans(chars, s, s2, s3, seq![plus], term_yield(t));
                        lemma_consumes_trans(
                            chars,
                            s,
                            s3,
                            s4,
                            seq![plus] + term_yield(t),
                            arith_tail_yield(rest),
                        );
                    }
                    return ParseArithTail::Add(t, Box::new(rest));
                }
            }
        }
    }
    ParseArithTail::Empty
}

proof fn lemma_sound_arith(chars: Seq<char>, s: PState) -> (d: ParseArith)
    requires
        valid(chars, s),
    ensures
        p_arith(chars, s) matches Ok((e, s2)) ==> {
            &&& valid(chars, s2)
            &&& measure(chars, s2) < measure(chars, s)
            &&& consumes(chars, s, s2, arith_yield(d))
            &&& arith_tree(d) == e
        },
    decreases measure(chars, s), 6nat,
{
    let t = lemma_sound_term(chars, s);
    if let Ok((left, s1)) = p_term(chars, s) {
        let tail = lemma_sound_arith_tail(chars, left, s1);
        if let Ok((e, s2)) = p_arith_tail(chars, left, s1) {
            lemma_consumes_trans(chars, s, s1, s2, term_yield(t), arith_tail_yield(tail));
        }
        ParseArith { term: t, tail }
    } else {
        ParseArith { term: t, tail: ParseArithTail::Empty }
    }
}

proof fn lemma_sound_rel(chars: Seq<char>, s: PState) -> (d: ParseRel)
    requires
        valid(chars, s),
    ensures
        p_rel(chars, s) matches Ok((oper, s2)) ==> {
            &&& valid(chars, s2)
            &&& measure(chars, s2) < measure(chars, s)
            &&& consumes(chars, s, s2, rel_yield(d))
            &&& rel_tree(d) == oper
        },
{
    lemma_take_stream(chars, s);
    match spec_take(chars, s) {
        Ok((Some(TokenView::Operator(OperatorToken::Less)), _, _)) => ParseRel::Less,
        _ => ParseRel::Equal,
    }
}

proof fn lemma_sound_bool(chars: Seq<char>, s: PState) -> (d: ParseBool)
    requires
        valid(chars, s),
    ensures
        p_bool(chars, s) matches Ok((e, s2)) ==> {
            &&& valid(chars, s2)
            &&& measure(chars, s2) < measure(chars, s)
            &&& consumes(chars, s, s2, bool_yield(d))
            &&& bool_tree(d) == e
        },
    decreases measure(chars, s), 7nat,
{
    let a = lemma_sound_arith(chars, s);
    if let Ok((left, s1)) = p_arith(chars, s) {
        let r = lemma_sound_rel(chars, s1);
        if let Ok((oper, s2)) = p_rel(chars, s1) {
            let b = lemma_sound_arith(chars, s2);
            if let Ok((right, s3)) = p_arith(chars, s2) {
                lemma_consumes_trans(chars, s, s1, s2, arith_yield(a), rel_yield(r));
                lemma_consumes_trans(
                    chars,
                    s,
                    s2,
                    s3,
                    arith_yield(a) + rel_yield(r),
                    arith_yield(b),
                );
            }
            return ParseBool { left: a, rel: r, right: b };
        }
    }
    ParseBool { left: a, rel: ParseRel::Equal, right: a }
}

proof fn lemma_sound_decl(chars: Seq<char>, s: PState) -> (d: ParseStm)
    requires
        valid(chars, s),
    ensures
        p_decl(chars, s) matches Ok(((name, init), s2)) ==> {
            &&& valid(chars, s2)
            &&& measure(chars, s2) < measure(chars, s)
            &&& consumes(chars, s, s2, stm_yield(d))
            &&& stm_tree(d) == StmView::Decl(name, init)
        },
    decreases measure(chars, s), 8nat,
{
    let k = kw(KeywordToken::I32);
    let eq = op(OperatorToken::Assign);
    let semi = pu(PunctuationToken::Semicolon);
    lemma_expect_stream(chars, s, k);
    if let Ok(s1) = spec_expect(chars, s, k) {
        lemma_expect_stream(chars, s1, k);
        if let Ok((name, s2)) = spec_expect_identifier(chars, s1) {
            lemma_expect_stream(chars, s2, eq);
            if let Ok(s3) = spec_expect(chars, s2, eq) {
                let a = lemma_sound_arith(chars, s3);
                if let Ok((init, s4)) = p_arith(chars, s3) {
                    lemma_expect_stream(chars, s4, semi);
                    if let Ok(s5) = spec_expect(chars, s4, semi) {
                        let id = TokenView::Identifier(name);
                        lemma_consumes_trans(chars, s, s1, s2, seq![k], seq![id]);
                        lemma_consumes_trans(chars, s, s2, s3, seq![k] + seq![id], seq![eq]);
                        assert(seq![k] + seq![id] + seq![eq] =~= seq![k, id, eq]);
                        lemma_consumes_trans(chars, s, s3, s4, seq![k, id, eq], arith_yield(a));
                        lemma_consumes_trans(
                            chars,
                            s,
                            s4,
                            s5,
                            seq![k, id, eq] + arith_yield(a),
                            seq![semi],
                        );
                    }
                }
                return ParseStm::Decl(name, a);
            }
        }
    }
    arbitrary()
}

proof fn lemma_sound_assign(chars: Seq<char>, s: PState) -> (d: ParseStm)
    requires
        valid(chars, s),
    ensures
        p_assign(chars, s) matches Ok(((name, value), s2)) ==> {
            &&& valid(chars, s2)
            &&& measure(chars, s2) < measure(chars, s)
            &&& consumes(chars, s, s2, stm_yield(d))
            &&& stm_tree(d) == StmView::Assign(name, value)
        },
    decreases measure(chars, s), 8nat,
{
    let eq = op(OperatorToken::Assign);
    let semi = pu(PunctuationToken::Semicolon);
    lemma_expect_stream(chars, s, eq);
    if let Ok((name, s1)) = spec_expect_identifier(chars, s) {
        lemma_expect_stream(chars, s1, eq);
        if let Ok(s2) = spec_expect(chars, s1, eq) {
            let a = lemma_sound_arith(chars, s2);
            if let Ok((value, s3)) = p_arith(chars, s2) {
                lemma_expect_stream(chars, s3, semi);
                if let Ok(s4) = spec_expect(chars, s3, semi) {
                    let id = TokenView::Identifier(name);
                    lemma_consumes_trans(chars, s, s1, s2, seq![id], seq![eq]);
                    assert(seq![id] + seq![eq] =~= seq![id, eq]);
                    lemma_consumes_trans(chars, s, s2, s3, seq![id, eq], arith_yield(a));
                    lemma_consumes_trans(
                        chars,
                        s,
                        s3,
                        s4,
                        seq![id, eq] + arith_yield(a),
                        seq![semi],
                    );
                }
            }
            return ParseStm::Assign(name, a);
        }
    }
    arbitrary()
}

proof fn lemma_sound_block(chars: Seq<char>, s: PState) -> (d: ParseBlock)
    requires
        valid(chars, s),
    ensures
        p_block(chars, s) matches Ok((stms, s2)) ==> {
            &&& valid(chars, s2)
            &&& measure(chars, s2) < measure(chars, s)
            &&& consumes(chars, s, s2, block_yield(d))
            &&& block_tree(d) == stms
        },
    decreases measure(chars, s), 7nat,
{
    let open = pu(PunctuationToken::BraceLeft);
    let close = pu(PunctuationToken::BraceRight);
    lemma_expect_stream(chars, s, open);
    if let Ok(s1) = spec_expect(chars, s, open) {
        let l = lemma_sound_stm_list(chars, s1);
        if let Ok((stms, s2)) = p_stm_list(chars, s1) {
            lemma_expect_stream(chars, s2, close);
            if let Ok(s3) = spec_expect(chars, s2, close) {
                lemma_consumes_trans(chars, s, s1, s2, seq![open], stm_list_yield(l));
                lemma_consumes_trans(
                    chars,
                    s,
                    s2,
                    s3,
                    seq![open] + stm_list_yield(l),
                    seq![close],
                );
            }
        }
        ParseBlock { stms: l }
    } else {
        ParseBlock { stms: ParseStmList::Empty }
    }
}

proof fn lemma_sound_else(chars: Seq<char>, s: PState) -> (d: ParseElse)
    requires
        valid(chars, s),
    ensures
        p_else(chars, s) matches Ok((b, s2)) ==> {
            &&& valid(chars, s2)
            &&& measure(chars, s2) <= measure(chars, s)
            &&& consumes(chars, s, s2, else_yield(d))
            &&& else_tree(d) == b
        },
    decreases measure(chars, s), 7nat,
{
    let k = kw(KeywordToken::Else);
    lemma_fill_stream(chars, s);
    if let Ok(s1) = spec_fill(chars, s) {
        if s1.ahead == Some(k) {
            lemma_expect_stream(chars, s1, k);
            if let Ok(s2) = spec_expect(chars, s1, k) {
                let b = lemma_sound_block(chars, s2);
                if let Ok((block, s3)) = p_block(chars, s2) {
                    assert(Seq::<TokenView>::empty() + seq![k] =~= seq![k]);
                    lemma_consumes_trans(chars, s, s1, s2, Seq::empty(), seq![k]);
                    lemma_consumes_trans(chars, s, s2, s3, seq![k], block_yield(b));
                }
                return ParseElse::Else(b);
            }
        }
    }
    ParseElse::Empty
}

proof fn lemma_chain_if(
    chars: Seq<char>,
    st: (PState, PState, PState, PState, PState, PState, PState),
    c: ParseBool,
    b: ParseBlock,
    e: ParseElse,
)
    requires
        consumes(chars, st.0, st.1, seq![kw(KeywordToken::If)]),
        consumes(chars, st.1, st.2, seq![pu(PunctuationToken::ParenLeft)]),
        consumes(chars, st.2, st.3, bool_yield(c)),
        consumes(chars, st.3, st.4, seq![pu(PunctuationToken::ParenRight)]),
        consumes(chars, st.4, st.5, block_yield(b)),
        consumes(chars, st.5, st.6, else_yield(e)),
    ensures
        consumes(chars, st.0, st.6, stm_yield(ParseStm::If(c, b, e))),
{
    let k = kw(KeywordToken::If);
    let open = pu(PunctuationToken::ParenLeft);
    let close = pu(PunctuationToken::ParenRight);
    lemma_consumes_trans(chars, st.0, st.1, st.2, seq![k], seq![open]);
    assert(seq![k] + seq![open] =~= seq![k, open]);
    lemma_consumes_trans(chars, st.0, st.2, st.3, seq![k, open], bool_yield(c));
    let p3 = seq![k, open] + bool_yield(c);
    lemma_consumes_trans(chars, st.0, st.3, st.4, p3, seq![close]);
    let p4 = p3 + seq![close];
    lemma_consumes_trans(chars, st.0, st.4, st.5, p4, block_yield(b));
    let p5 = p4 + block_yield(b);
    lemma_consumes_trans(chars, st.0, st.5, st.6, p5, else_yield(e));
}

proof fn lemma_chain_while(
    chars: Seq<char>,
    st: (PState, PState, PState, PState, PState, PState),
    c: ParseBool,
    b: ParseBlock,
)
    requires
        consumes(chars, st.0, st.1, seq![kw(KeywordToken::While)]),
        consumes(chars, st.1, st.2, seq![pu(PunctuationToken::ParenLeft)]),
        consumes(chars, st.2, st.3, bool_yield(c)),
        consumes(chars, st.3, st.4, seq![pu(PunctuationToken::ParenRight)]),
        consumes(chars, st.4, st.5, block_yield(b)),
    ensures
        consumes(chars, st.0, st.5, stm_yield(ParseStm::While(c, b))),
{
    let k = kw(KeywordToken::While);
    let open = pu(PunctuationToken::ParenLeft);
    let close = pu(PunctuationToken::ParenRight);
    lemma_consumes_trans(chars, st.0, st.1, st.2, seq![k], seq![open]);
    assert(seq![k] + seq![open] =~= seq![k, open]);
    lemma_consumes_trans(chars, st.0, st.2, st.3, seq![k, open], bool_yield(c));
    let p3 = seq![k, open] + bool_yield(c);
    lemma_consumes_trans(chars, st.0, st.3, st.4, p3, seq![close]);
    let p4 = p3 + seq![close];
    lemma_consumes_trans(chars, st.0, st.4, st.5, p4, block_yield(b));
}

proof fn lemma_sound_if(chars: Seq<char>, s: PState) -> (d: ParseStm)
    requires
        valid(chars, s),
    ensures
        p_if(chars, s) matches Ok(((cond, then_block, else_block), s2)) ==> {
            &&& valid(chars, s2)
            &&& measure(chars, s2) < measure(chars, s)
            &&& consumes(chars, s, s2, stm_yield(d))
            &&& stm_tree(d) == StmView::If(cond, then_block, else_block)
        },
    decreases measure(chars, s), 8nat,
{
    let k = kw(KeywordToken::If);
    let open = pu(PunctuationToken::ParenLeft);
    let close = pu(PunctuationToken::ParenRight);
    lemma_expect_stream(chars, s, k);
    if let Ok(s1) = spec_expect(chars, s, k) {
        lemma_expect_stream(chars, s1, open);
        if let Ok(s2) = spec_expect(chars, s1, open) {
            let c = lemma_sound_bool(chars, s2);
            if let Ok((cond, s3)) = p_bool(chars, s2) {
                lemma_expect_stream(chars, s3, close);
                if let Ok(s4) = spec_expect(chars, s3, close) {
                    let b = lemma_sound_block(chars, s4);
                    if let Ok((then_block, s5)) = p_block(chars, s4) {
                        let e = lemma_sound_else(chars, s5);
                        if let Ok((else_block, s6)) = p_else(chars, s5) {
                            lemma_chain_if(chars, (s, s1, s2, s3, s4, s5, s6), c, b, e);
                        }
                        return ParseStm::If(c, b, e);
                    }
                }
            }
        }
    }
    arbitrary()
}

proof fn lemma_sound_while(chars: Seq<char>, s: PState) -> (d: ParseStm)
    requires
        valid(chars, s),
    ensures
        p_while(chars, s) matches Ok(((cond, body), s2)) ==> {
            &&& valid(chars, s2)
            &&& measure(chars, s2) < measure(chars, s)
            &&& consumes(chars, s, s2, stm_yield(d))
            &&& stm_tree(d) == StmView::While(cond, body)
        },
    decreases measure(chars, s), 8nat,
{
    let k = kw(KeywordToken::While);
    let open = pu(PunctuationToken::ParenLeft);
    let close = pu(PunctuationToken::ParenRight);
    lemma_expect_stream(chars, s, k);
    if let Ok(s1) = spec_expect(chars, s, k) {
        lemma_expect_stream(chars, s1, open);
        if let Ok(s2) = spec_expect(chars, s1, open) {
            let c = lemma_sound_bool(chars, s2);
            if let Ok((cond, s3)) = p_bool(chars, s2) {
                lemma_expect_stream(chars, s3, close);
                if let Ok(s4) = spec_expect(chars, s3, close) {
                    let b = lemma_sound_block(chars, s4);
                    if let Ok((body, s5)) = p_block(chars, s4) {
                        lemma_chain_while(chars, (s, s1, s2, s3, s4, s5), c, b);
                    }
                    return ParseStm::While(c, b);
                }
            }
        }
    }
    arbitrary()
}

proof fn lemma_sound_stm(chars: Seq<char>, s: PState) -> (d: ParseStm)
    requires
        valid(chars, s),
    ensures
        p_stm(chars, s) matches Ok((stm, s2)) ==> {
            &&& valid(chars, s2)
            &&& measure(chars, s2) < measure(chars, s)
            &&& consumes(chars, s, s2, stm_yield(d))
            &&& stm_tree(d) == stm
        },
    decreases measure(chars, s), 9nat,
{
    lemma_fill_stream(chars, s);
    if let Ok(s1) = spec_fill(chars, s) {
        let d = match s1.ahead {
            Some(TokenView::Keyword(KeywordToken::I32)) => lemma_sound_decl(chars, s1),
            Some(TokenView::Identifier(_)) => lemma_sound_assign(chars, s1),
            Some(TokenView::Keyword(KeywordToken::If)) => lemma_sound_if(chars, s1),
            Some(TokenView::Keyword(KeywordToken::While)) => lemma_sound_while(chars, s1),
            _ => arbitrary(),
        };
        if let Ok((_, s2)) = p_stm(chars, s) {
            assert(Seq::<TokenView>::empty() + stm_yield(d) =~= stm_yield(d));
            lemma_consumes_trans(chars, s, s1, s2, Seq::empty(), stm_yield(d));
        }
        d
    } else {
        arbitrary()
    }
}

proof fn lemma_sound_stm_list(chars: Seq<char>, s: PState) -> (d: ParseStmList)
    requires
        valid(chars, s),
    ensures
        p_stm_list(chars, s) matches Ok((stms, s2)) ==> {
            &&& valid(chars, s2)
            &&& measure(chars, s2) <= measure(chars, s)
            &&& consumes(chars, s, s2, stm_list_yield(d))
            &&& stm_list_tree(d) == stms
        },
    decreases measure(chars, s), 10nat,
{
    lemma_fill_stream(chars, s);
    if let Ok(s1) = spec_fill(chars, s) {
        if starts_stm(s1.ahead) {
            let st = lemma_sound_stm(chars, s1);
            if let Ok((stm, s2)) = p_stm(chars, s1) {
                let rest = lemma_sound_stm_list(chars, s2);
                if let Ok((more, s3)) = p_stm_list(chars, s2) {
                    assert(Seq::<TokenView>::empty() + stm_yield(st) =~= stm_yield(st));
                    lemma_consumes_trans(chars, s, s1, s2, Seq::empty(), stm_yield(st));
                    lemma_consumes_trans(
                        chars,
                        s,
                        s2,
                        s3,
                        stm_yield(st),
                        stm_list_yield(rest),
                    );
                }
                return ParseStmList::Cons(Box::new(st), Box::new(rest));
            }
        }
    }
    ParseStmList::Empty
}

/// Every program the parser accepts is a sentence of the grammar, with the
/// tree the parser returns: when parsing from position `i` succeeds with
/// the statements `stms`, the text from `i` on lexes without error, and its
/// tokens are exactly what the derivation `d` of `Program -> StmList`
/// spells, and `d` builds `stms`.
pub proof fn lemma_accepted_program_is_sentence(chars: Seq<char>, i: int) -> (d: ParseStmList)
    requires
        0 <= i <= chars.len(),
    ensures
        p_program(chars, PState { pos: i, ahead: None }) matches Ok((stms, _)) ==> {
            &&& tokens_from(chars, i) == (stm_list_yield(d), true)
            &&& stm_list_tree(d) == stms
        },
{
    reveal(spec_fill);
    let s = PState { pos: i, ahead: None };
    let d = lemma_sound_stm_list(chars, s);
    if let Ok((stms, s1)) = p_stm_list(chars, s) {
        lemma_fill_stream(chars, s1);
        if let Ok(s2) = spec_fill(chars, s1) {
            if s2.ahead is None {
                lemma_lex_next(chars, s1.pos);
                lemma_end_of_input_is_stable(chars, s1.pos);
                assert(tokens_from(chars, s2.pos) == (Seq::<TokenView>::empty(), true));
                assert(stm_list_yield(d) + Seq::<TokenView>::empty() =~= stm_list_yield(d));
            }
        }
    }
    d
}

/// The first of `t`, if any.
pub open spec fn first(t: Seq<TokenView>) -> Option<TokenView> {
    if t.len() > 0 {
        Some(t[0])
    } else {
        None
    }
}

/// The parser in state `s` has exactly `toks` still to come, and the text
/// lexes to its end without error.
#[verifier::opaque]
pub open spec fn at(chars: Seq<char>, s: PState, toks: Seq<TokenView>) -> bool {
    &&& valid(chars, s)
    &&& stream(chars, s) == toks
    &&& tokens_from(chars, s.pos).1
}

/// What may follow a term: anything but `*`.
pub open spec fn follows_term(t: Seq<TokenView>) -> bool {
    first(t) != Some(op(OperatorToken::Mul))
}

/// What may follow an arithmetic expression: anything but `*` and `+`.
pub open spec fn follows_arith(t: Seq<TokenView>) -> bool {
    first(t) != Some(op(OperatorToken::Mul)) && first(t) != Some(op(OperatorToken::Add))
}

/// What may follow a statement list: the end, or `}`.
pub open spec fn follows_stms(t: Seq<TokenView>) -> bool {
    first(t) == None::<TokenView> || first(t) == Some(pu(PunctuationToken::BraceRight))
}

/// What may follow a statement: the end, `}`, or the start of a statement.
pub open spec fn follows_stm(t: Seq<TokenView>) -> bool {
    follows_stms(t) || starts_stm(first(t))
}

proof fn lemma_fill_at(chars: Seq<char>, s: PState, toks: Seq<TokenView>)
    requires
        at(chars, s, toks),
    ensures
        spec_fill(chars, s) matches Ok(s1) && s1.ahead == first(toks) && at(chars, s1, toks)
            && measure(chars, s1) <= measure(chars, s),
{
    reveal(spec_fill);
    reveal(at);
    lemma_fill(chars, s);
    if s.ahead is None {
        lemma_lex_next(chars, s.pos);
        let (r, j) = lex_next(chars, s.pos);
        if r == Ok::<Option<TokenView>, LexerErrorView>(None) {
            lemma_end_of_input_is_stable(chars, s.pos);
        }
    }
}

proof fn lemma_take_at(chars: Seq<char>, s: PState, x: TokenView, rest: Seq<TokenView>)
    requires
        at(chars, s, seq![x] + rest),
    ensures
        spec_take(chars, s) matches Ok((t, _, s2)) && t == Some(x) && at(chars, s2, rest)
            && measure(chars, s2) < measure(chars, s),
{
    reveal(at);
    lemma_fill_at(chars, s, seq![x] + rest);
    lemma_take(chars, s);
    let s1 = spec_fill(chars, s)->Ok_0;
    assert(stream(chars, s1) == seq![x] + rest);
    assert(stream(chars, s1).drop_first() =~= rest);
    assert(stream(chars, s1).drop_first() =~= tokens_from(chars, s1.pos).0);
}

proof fn lemma_expect_at(chars: Seq<char>, s: PState, x: TokenView, rest: Seq<TokenView>)
    requires
        at(chars, s, seq![x] + rest),
    ensures
        spec_expect(chars, s, x) matches Ok(s2) && at(chars, s2, rest) && measure(chars, s2)
            < measure(chars, s),
        x is Identifier ==> (spec_expect_identifier(chars, s) matches Ok((n, s2)) && x
            == TokenView::Identifier(n) && at(chars, s2, rest) && measure(chars, s2) < measure(
            chars,
            s,
        )),
{
    lemma_take_at(chars, s, x, rest);
}

proof fn lemma_complete_factor(chars: Seq<char>, s: PState, d: ParseFactor, rest: Seq<TokenView>)
    requires
        at(chars, s, factor_yield(d) + rest),
    ensures
        p_factor(chars, s) matches Ok((e, s2)) && e == factor_tree(d) && at(chars, s2, rest)
            && measure(chars, s2) < measure(chars, s),
    decreases d,
{
    match d {
        ParseFactor::Id(n) => {
            lemma_take_at(chars, s, TokenView::Identifier(n), rest);
        },
        ParseFactor::Num(v) => {
            lemma_take_at(chars, s, TokenView::Integer(v), rest);
        },
        ParseFactor::Paren(a) => {
            let open = pu(PunctuationToken::ParenLeft);
            let close = pu(PunctuationToken::ParenRight);
            let inner = arith_yield(*a) + (seq![close] + rest);
            assert(factor_yield(d) + rest =~= seq![open] + inner);
            lemma_take_at(chars, s, open, inner);
            let s1 = spec_take(chars, s)->Ok_0.2;
            lemma_complete_arith(chars, s1, *a, seq![close] + rest);
            let s2 = p_arith(chars, s1)->Ok_0.1;
            lemma_expect_at(chars, s2, close, rest);
        },
    }
}

proof fn lemma_complete_term_tail(
    chars: Seq<char>,
    s: PState,
    left: ExprView,
    d: ParseTermTail,
    rest: Seq<TokenView>,
)
    requires
        at(chars, s, term_tail_yield(d) + rest),
        follows_term(rest),
    ensures
        p_term_tail(chars, left, s) matches Ok((e, s2)) && e == term_tail_tree(d, left) && at(
            chars,
            s2,
            rest,
        ) && measure(chars, s2) <= measure(chars, s),
    decreases d,
{
    let toks = term_tail_yield(d) + rest;
    lemma_fill_at(chars, s, toks);
    let s1 = spec_fill(chars, s)->Ok_0;
    match d {
        ParseTermTail::Empty => {
            assert(toks =~= rest);
        },
        ParseTermTail::Mul(f, r) => {
            let star = op(OperatorToken::Mul);
            let after = factor_yield(f) + (term_tail_yield(*r) + rest);
            assert(toks =~= seq![star] + after);
            lemma_expect_at(chars, s1, star, after);
            let s2 = spec_expect(chars, s1, star)->Ok_0;
            lemma_complete_factor(chars, s2, f, term_tail_yield(*r) + rest);
            let (right, s3) = p_factor(chars, s2)->Ok_0;
            lemma_complete_term_tail(
                chars,
                s3,
                binary(BinaryOperator::Mul, left, right),
                *r,
                rest,
            );
        },
    }
}

proof fn lemma_complete_term(chars: Seq<char>, s: PState, d: ParseTerm, rest: Seq<TokenView>)
    requires
        at(chars, s, term_yield(d) + rest),
        follows_term(rest),
    ensures
        p_term(chars, s) matches Ok((e, s2)) && e == term_tree(d) && at(chars, s2, rest)
            && measure(chars, s2) < measure(chars, s),
    decreases d,
{
    let after = term_tail_yield(d.tail) + rest;
    assert(term_yield(d) + rest =~= factor_yield(d.factor) + after);
    lemma_complete_factor(chars, s, d.factor, after);
    let (left, s1) = p_factor(chars, s)->Ok_0;
    lemma_complete_term_tail(chars, s1, left, d.tail, rest);
}

proof fn lemma_complete_arith_tail(
    chars: Seq<char>,
    s: PState,
    left: ExprView,
    d: ParseArithTail,
    rest: Seq<TokenView>,
)
    requires
        at(chars, s, arith_tail_yield(d) + rest),
        follows_arith(rest),
    ensures
        p_arith_tail(chars, left, s) matches Ok((e, s2)) && e == arith_tail_tree(d, left) && at(
            chars,
            s2,
            rest,
        ) && measure(chars, s2) <= measure(chars, s),
    decreases d,
{
    let toks = arith_tail_yield(d) + rest;
    lemma_fill_at(chars, s, toks);
    let s1 = spec_fill(chars, s)->Ok_0;
    match d {
        ParseArithTail::Empty => {
            assert(toks =~= rest);
        },
        ParseArithTail::Add(t, r) => {
            let plus = op(OperatorToken::Add);
            let more = arith_tail_yield(*r) + rest;
            let after = term_yield(t) + more;
            assert(toks =~= seq![plus] + after);
            lemma_expect_at(chars, s1, plus, after);
            let s2 = spec_expect(chars, s1, plus)->Ok_0;
            match *r {
                ParseArithTail::Empty => {
                    assert(more =~= rest);
                },
                ParseArithTail::Add(_, _) => {},
            }
            lemma_complete_term(chars, s2, t, more);
            let (right, s3) = p_term(chars, s2)->Ok_0;
            lemma_complete_arith_tail(
                chars,
                s3,
                binary(BinaryOperator::Add, left, right),
                *r,
                rest,
            );
        },
    }
}

proof fn lemma_complete_arith(chars: Seq<char>, s: PState, d: ParseArith, rest: Seq<TokenView>)
    requires
        at(chars, s, arith_yield(d) + rest),
        follows_arith(rest),
    ensures
        p_arith(chars, s) matches Ok((e, s2)) && e == arith_tree(d) && at(chars, s2, rest)
            && measure(chars, s2) < measure(chars, s),
    decreases d,
{
    let after = arith_tail_yield(d.tail) + rest;
    assert(arith_yield(d) + rest =~= term_yield(d.term) + after);
    match d.tail {
        ParseArithTail::Empty => {
            assert(after =~= rest);
        },
        ParseArithTail::Add(_, _) => {},
    }
    lemma_complete_term(chars, s, d.term, after);
    let (left, s1) = p_term(chars, s)->Ok_0;
    lemma_complete_arith_tail(chars, s1, left, d.tail, rest);
}

proof fn lemma_complete_bool(chars: Seq<char>, s: PState, d: ParseBool, rest: Seq<TokenView>)
    requires
        at(chars, s, bool_yield(d) + rest),
        follows_arith(rest),
    ensures
        p_bool(chars, s) matches Ok((e, s2)) && e == bool_tree(d) && at(chars, s2, rest)
            && measure(chars, s2) < measure(chars, s),
{
    let rel = rel_yield(d.rel)[0];
    let tail = arith_yield(d.right) + rest;
    let after = seq![rel] + tail;
    assert(rel_yield(d.rel) =~= seq![rel]);
    assert(bool_yield(d) + rest =~= arith_yield(d.left) + after);
    lemma_complete_arith(chars, s, d.left, after);
    let (left, s1) = p_arith(chars, s)->Ok_0;
    lemma_take_at(chars, s1, rel, tail);
    let s2 = spec_take(chars, s1)->Ok_0.2;
    lemma_complete_arith(chars, s2, d.right, rest);
}

proof fn lemma_complete_block(chars: Seq<char>, s: PState, d: ParseBlock, rest: Seq<TokenView>)
    requires
        at(chars, s, block_yield(d) + rest),
    ensures
        p_block(chars, s) matches Ok((v, s2)) && v == block_tree(d) && at(chars, s2, rest)
            && measure(chars, s2) < measure(chars, s),
    decreases d, 2nat,
{
    let open = pu(PunctuationToken::BraceLeft);
    let close = pu(PunctuationToken::BraceRight);
    let inner = stm_list_yield(d.stms) + (seq![close] + rest);
    assert(block_yield(d) + rest =~= seq![open] + inner);
    lemma_expect_at(chars, s, open, inner);
    let s1 = spec_expect(chars, s, open)->Ok_0;
    lemma_complete_stm_list(chars, s1, d.stms, seq![close] + rest);
    let s2 = p_stm_list(chars, s1)->Ok_0.1;
    lemma_expect_at(chars, s2, close, rest);
}

proof fn lemma_complete_else(chars: Seq<char>, s: PState, d: ParseElse, rest: Seq<TokenView>)
    requires
        at(chars, s, else_yield(d) + rest),
        first(rest) != Some(kw(KeywordToken::Else)),
    ensures
        p_else(chars, s) matches Ok((b, s2)) && b == else_tree(d) && at(chars, s2, rest)
            && measure(chars, s2) <= measure(chars, s),
    decreases d, 2nat,
{
    let toks = else_yield(d) + rest;
    lemma_fill_at(chars, s, toks);
    let s1 = spec_fill(chars, s)->Ok_0;
    match d {
        ParseElse::Empty => {
            assert(toks =~= rest);
        },
        ParseElse::Else(b) => {
            let k = kw(KeywordToken::Else);
            let after = block_yield(b) + rest;
            assert(toks =~= seq![k] + after);
            lemma_expect_at(chars, s1, k, after);
            let s2 = spec_expect(chars, s1, k)->Ok_0;
            lemma_complete_block(chars, s2, b, rest);
        },
    }
}

proof fn lemma_complete_stm(chars: Seq<char>, s: PState, d: ParseStm, rest: Seq<TokenView>)
    requires
        at(chars, s, stm_yield(d) + rest),
        follows_stm(rest),
    ensures
        p_stm(chars, s) matches Ok((v, s2)) && v == stm_tree(d) && at(chars, s2, rest)
            && measure(chars, s2) < measure(chars, s),
    decreases d, 1nat,
{
    let toks = stm_yield(d) + rest;
    lemma_fill_at(chars, s, toks);
    lemma_stm_starts(d);
    let s1 = spec_fill(chars, s)->Ok_0;
    assert(s1.ahead == Some(stm_yield(d)[0]));
    match d {
        ParseStm::Decl(_, _) => {
            assert(stm_yield(d)[0] == kw(KeywordToken::I32));
            lemma_complete_decl(chars, s1, d, rest);
        },
        ParseStm::Assign(n, _) => {
            assert(stm_yield(d)[0] == TokenView::Identifier(n));
            lemma_complete_assign(chars, s1, d, rest);
        },
        ParseStm::If(_, _, _) => {
            assert(stm_yield(d)[0] == kw(KeywordToken::If));
            lemma_complete_if(chars, s1, d, rest);
        },
        ParseStm::While(_, _) => {
            assert(stm_yield(d)[0] == kw(KeywordToken::While));
            lemma_complete_while(chars, s1, d, rest);
        },
    }
}

proof fn lemma_complete_decl(chars: Seq<char>, s: PState, d: ParseStm, rest: Seq<TokenView>)
    requires
        d is Decl,
        at(chars, s, stm_yield(d) + rest),
    ensures
        p_decl(chars, s) matches Ok((v, s2)) && StmView::Decl(v.0, v.1) == stm_tree(d) && at(
            chars,
            s2,
            rest,
        ) && measure(chars, s2) < measure(chars, s),
    decreases d, 0nat,
{
    let n = d->Decl_0;
    let a = d->Decl_1;
    let eq = op(OperatorToken::Assign);
    let semi = pu(PunctuationToken::Semicolon);
    let k = kw(KeywordToken::I32);
    let id = TokenView::Identifier(n);
    let t4 = arith_yield(a) + (seq![semi] + rest);
    let t3 = seq![eq] + t4;
    let t2 = seq![id] + t3;
    assert(stm_yield(d) + rest =~= seq![k] + t2);
    lemma_expect_at(chars, s, k, t2);
    let s2 = spec_expect(chars, s, k)->Ok_0;
    lemma_expect_at(chars, s2, id, t3);
    let s3 = spec_expect_identifier(chars, s2)->Ok_0.1;
    lemma_expect_at(chars, s3, eq, t4);
    let s4 = spec_expect(chars, s3, eq)->Ok_0;
    lemma_complete_arith(chars, s4, a, seq![semi] + rest);
    let s5 = p_arith(chars, s4)->Ok_0.1;
    lemma_expect_at(chars, s5, semi, rest);
}

proof fn lemma_complete_assign(chars: Seq<char>, s: PState, d: ParseStm, rest: Seq<TokenView>)
    requires
        d is Assign,
        at(chars, s, stm_yield(d) + rest),
    ensures
        p_assign(chars, s) matches Ok((v, s2)) && StmView::Assign(v.0, v.1) == stm_tree(d) && at(
            chars,
            s2,
            rest,
        ) && measure(chars, s2) < measure(chars, s),
    decreases d, 0nat,
{
    let n = d->Assign_0;
    let a = d->Assign_1;
    let eq = op(OperatorToken::Assign);
    let semi = pu(PunctuationToken::Semicolon);
    let id = TokenView::Identifier(n);
    let t3 = arith_yield(a) + (seq![semi] + rest);
    let t2 = seq![eq] + t3;
    assert(stm_yield(d) + rest =~= seq![id] + t2);
    lemma_expect_at(chars, s, id, t2);
    let s2 = spec_expect_identifier(chars, s)->Ok_0.1;
    lemma_expect_at(chars, s2, eq, t3);
    let s3 = spec_expect(chars, s2, eq)->Ok_0;
    lemma_complete_arith(chars, s3, a, seq![semi] + rest);
    let s4 = p_arith(chars, s3)->Ok_0.1;
    lemma_expect_at(chars, s4, semi, rest);
}

proof fn lemma_complete_while(chars: Seq<char>, s: PState, d: ParseStm, rest: Seq<TokenView>)
    requires
        d is While,
        at(chars, s, stm_yield(d) + rest),
    ensures
        p_while(chars, s) matches Ok((v, s2)) && StmView::While(v.0, v.1) == stm_tree(d) && at(
            chars,
            s2,
            rest,
        ) && measure(chars, s2) < measure(chars, s),
    decreases d, 0nat,
{
    let c = d->While_0;
    let b = d->While_1;
    let open = pu(PunctuationToken::ParenLeft);
    let close = pu(PunctuationToken::ParenRight);
    let k = kw(KeywordToken::While);
    let t5 = block_yield(b) + rest;
    let t4 = seq![close] + t5;
    let t3 = bool_yield(c) + t4;
    let t2 = seq![open] + t3;
    assert(stm_yield(d) + rest =~= seq![k] + t2);
    lemma_expect_at(chars, s, k, t2);
    let s2 = spec_expect(chars, s, k)->Ok_0;
    lemma_expect_at(chars, s2, open, t3);
    let s3 = spec_expect(chars, s2, open)->Ok_0;
    lemma_complete_bool(chars, s3, c, t4);
    let s4 = p_bool(chars, s3)->Ok_0.1;
    lemma_expect_at(chars, s4, close, t5);
    let s5 = spec_expect(chars, s4, close)->Ok_0;
    lemma_complete_block(chars, s5, b, rest);
}

proof fn lemma_complete_if(chars: Seq<char>, s: PState, d: ParseStm, rest: Seq<TokenView>)
    requires
        d is If,
        at(chars, s, stm_yield(d) + rest),
        follows_stm(rest),
    ensures
        p_if(chars, s) matches Ok((v, s2)) && StmView::If(v.0, v.1, v.2) == stm_tree(d) && at(
            chars,
            s2,
            rest,
        ) && measure(chars, s2) < measure(chars, s),
    decreases d, 0nat,
{
    let c = d->If_0;
    let b = d->If_1;
    let e = d->If_2;
    let open = pu(PunctuationToken::ParenLeft);
    let close = pu(PunctuationToken::ParenRight);
    let k = kw(KeywordToken::If);
    let t6 = else_yield(e) + rest;
    let t5 = block_yield(b) + t6;
    let t4 = seq![close] + t5;
    let t3 = bool_yield(c) + t4;
    let t2 = seq![open] + t3;
    assert(stm_yield(d) + rest =~= seq![k] + t2);
    lemma_expect_at(chars, s, k, t2);
    let s2 = spec_expect(chars, s, k)->Ok_0;
    lemma_expect_at(chars, s2, open, t3);
    let s3 = spec_expect(chars, s2, open)->Ok_0;
    lemma_complete_bool(chars, s3, c, t4);
    let s4 = p_bool(chars, s3)->Ok_0.1;
    lemma_expect_at(chars, s4, close, t5);
    let s5 = spec_expect(chars, s4, close)->Ok_0;
    lemma_complete_block(chars, s5, b, t6);
    let s6 = p_block(chars, s5)->Ok_0.1;
    lemma_complete_else(chars, s6, e, rest);
}

proof fn lemma_complete_stm_list(
    chars: Seq<char>,
    s: PState,
    d: ParseStmList,
    rest: Seq<TokenView>,
)
    requires
        at(chars, s, stm_list_yield(d) + rest),
        follows_stms(rest),
    ensures
        p_stm_list(chars, s) matches Ok((v, s2)) && v == stm_list_tree(d) && at(chars, s2, rest)
            && measure(chars, s2) <= measure(chars, s),
    decreases d, 2nat,
{
    let toks = stm_list_yield(d) + rest;
    lemma_fill_at(chars, s, toks);
    let s1 = spec_fill(chars, s)->Ok_0;
    match d {
        ParseStmList::Empty => {
            assert(toks =~= rest);
        },
        ParseStmList::Cons(st, r) => {
            let more = stm_list_yield(*r) + rest;
            assert(toks =~= stm_yield(*st) + more);
            match *r {
                ParseStmList::Empty => {
                    assert(more =~= rest);
                },
                ParseStmList::Cons(st2, _) => {
                    lemma_stm_starts(*st2);
                },
            }
            lemma_stm_starts(*st);
            lemma_complete_stm(chars, s1, *st, more);
            let s2 = p_stm(chars, s1)->Ok_0.1;
            lemma_complete_stm_list(chars, s2, *r, rest);
        },
    }
}

/// A statement's tokens start with a token that starts a statement.
proof fn lemma_stm_starts(d: ParseStm)
    ensures
        stm_yield(d).len() > 0,
        starts_stm(first(stm_yield(d))),
        forall|rest: Seq<TokenView>| #[trigger] first(stm_yield(d) + rest) == Some(stm_yield(d)[0]),
{
}

/// Every sentence of the grammar is accepted, with its tree: when the text
/// from position `i` on lexes without error to exactly the tokens that a
/// derivation `d` of `Program -> StmList` spells, parsing from `i` succeeds
/// with the statements `d` builds.
pub proof fn lemma_sentence_is_accepted(chars: Seq<char>, i: int, d: ParseStmList)
    requires
        0 <= i <= chars.len(),
        tokens_from(chars, i) == (stm_list_yield(d), true),
    ensures
        p_program(chars, PState { pos: i, ahead: None }) matches Ok((v, _)) && v == stm_list_tree(
            d,
        ),
{
    reveal(at);
    let s = PState { pos: i, ahead: None };
    assert(stm_list_yield(d) + Seq::<TokenView>::empty() =~= stm_list_yield(d));
    lemma_complete_stm_list(chars, s, d, Seq::empty());
    let s1 = p_stm_list(chars, s)->Ok_0.1;
    lemma_fill_at(chars, s1, Seq::empty());
}

} // verus!
