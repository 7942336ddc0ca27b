use vstd::prelude::*;

use crate::text::{push_int, spec_int_text};

verus! {

/// A token produced by the lexer.
#[derive(Debug, Clone, PartialEq, Eq)]
pub enum Token {
    Keyword(KeywordToken),
    Identifier(String),
    Integer(i64),
    Operator(OperatorToken),
    Punctuation(PunctuationToken),
}

#[derive(Debug, Clone, Copy, PartialEq, Eq, Structural)]
pub enum KeywordToken {
    I32,
    If,
    Else,
    While,
}

#[derive(Debug, Clone, Copy, PartialEq, Eq, Structural)]
pub enum OperatorToken {
    Equal,  // ==
    Assign,  // =
    Mul,  // *
    Less,  // <
    Add,  // +
}

#[derive(Debug, Clone, Copy, PartialEq, Eq, Structural)]
pub enum PunctuationToken {
    ParenLeft,  // (
    ParenRight,  // )
    BraceLeft,  // {
    BraceRight,  // }
    Semicolon,  // ;
}

/// The mathematical value of a token: identifiers are character sequences.
pub enum TokenView {
    Keyword(KeywordToken),
    Identifier(Seq<char>),
    Integer(i64),
    Operator(OperatorToken),
    Punctuation(PunctuationToken),
}

impl View for Token {
    type V = TokenView;

    open spec fn view(&self) -> TokenView {
        match self {
            Token::Keyword(k) => TokenView::Keyword(*k),
            Token::Identifier(s) => TokenView::Identifier(s@),
            Token::Integer(v) => TokenView::Integer(*v),
            Token::Operator(o) => TokenView::Operator(*o),
            Token::Punctuation(p) => TokenView::Punctuation(*p),
        }
    }
}

impl KeywordToken {
    /// How the keyword is written in source text.
    pub open spec fn spec_text(self) -> Seq<char> {
        match self {
            KeywordToken::I32 => seq!['i', '3', '2'],
            KeywordToken::If => seq!['i', 'f'],
            KeywordToken::Else => seq!['e', 'l', 's', 'e'],
            KeywordToken::While => seq!['w', 'h', 'i', 'l', 'e'],
        }
    }

    /// The source text of the keyword (`i32`, `if`, `else`, `while`).
    pub fn to_string(&self) -> (s: String)
        ensures
            s@ == self.spec_text(),
    {
        match self {
            KeywordToken::I32 => {
                proof {
                    reveal_strlit("i32");
                }
                String::from_str("i32")
            },
            KeywordToken::If => {
                proof {
                    reveal_strlit("if");
                }
                String::from_str("if")
            },
            KeywordToken::Else => {
                proof {
                    reveal_strlit("else");
                }
                String::from_str("else")
            },
            KeywordToken::While => {
                proof {
                    reveal_strlit("while");
                }
                String::from_str("while")
            },
        }
    }
}

impl OperatorToken {
    /// How the operator is written in source text.
    pub open spec fn spec_text(self) -> Seq<char> {
        match self {
            OperatorToken::Equal => seq!['=', '='],
            OperatorToken::Assign => seq!['='],
            OperatorToken::Mul => seq!['*'],
            OperatorToken::Less => seq!['<'],
            OperatorToken::Add => seq!['+'],
        }
    }

    /// The source text of the operator (`==`, `=`, `*`, `<`, `+`).
    pub fn to_string(&self) -> (s: String)
        ensures
            s@ == self.spec_text(),
    {
        let mut s = String::new();
        match self {
            OperatorToken::Equal => {
                s.push('=');
                s.push('=');
            },
            OperatorToken::Assign => {
                s.push('=');
            },
            OperatorToken::Mul => {
                s.push('*');
            },
            OperatorToken::Less => {
                s.push('<');
            },
            OperatorToken::Add => {
                s.push('+');
            },
        }
        assert(s@ =~= self.spec_text());
        s
    }
}

impl PunctuationToken {
    /// The single character that spells the punctuation.
    pub open spec fn spec_char(self) -> char {
        match self {
            PunctuationToken::ParenLeft => '(',
            PunctuationToken::ParenRight => ')',
            PunctuationToken::BraceLeft => '{',
            PunctuationToken::BraceRight => '}',
            PunctuationToken::Semicolon => ';',
        }
    }

    pub open spec fn spec_text(self) -> Seq<char> {
        seq![self.spec_char()]
    }

    /// The source text of the punctuation (`(`, `)`, `{`, `}`, `;`).
    pub fn to_string(&self) -> (s: String)
        ensures
            s@ == self.spec_text(),
    {
        let c = match self {
            PunctuationToken::ParenLeft => '(',
            PunctuationToken::ParenRight => ')',
            PunctuationToken::BraceLeft => '{',
            PunctuationToken::BraceRight => '}',
            PunctuationToken::Semicolon => ';',
        };
        let mut s = String::new();
        s.push(c);
        assert(s@ =~= self.spec_text());
        s
    }
}

/// The one-byte code of a token kind:
/// keywords 1-4, identifier 5, integer 6, operators 7-11, punctuation 12-16.
pub open spec fn spec_code(t: TokenView) -> u8 {
    match t {
        TokenView::Keyword(k) => match k {
            KeywordToken::I32 => 1,
            KeywordToken::If => 2,
            KeywordToken::Else => 3,
            KeywordToken::While => 4,
        },
        TokenView::Identifier(_) => 5,
        TokenView::Integer(_) => 6,
        TokenView::Operator(op) => match op {
            OperatorToken::Equal => 7,
            OperatorToken::Assign => 8,
            OperatorToken::Mul => 9,
            OperatorToken::Less => 10,
            OperatorToken::Add => 11,
        },
        TokenView::Punctuation(p) => match p {
            PunctuationToken::ParenLeft => 12,
            PunctuationToken::ParenRight => 13,
            PunctuationToken::BraceLeft => 14,
            PunctuationToken::BraceRight => 15,
            PunctuationToken::Semicolon => 16,
        },
    }
}

/// Two tokens are of the same kind when they have the same variant and, for
/// keywords, operators and punctuation, the same inner value.
pub open spec fn same_kind(a: TokenView, b: TokenView) -> bool {
    match (a, b) {
        (TokenView::Keyword(x), TokenView::Keyword(y)) => x == y,
        (TokenView::Identifier(_), TokenView::Identifier(_)) => true,
        (TokenView::Integer(_), TokenView::Integer(_)) => true,
        (TokenView::Operator(x), TokenView::Operator(y)) => x == y,
        (TokenView::Punctuation(x), TokenView::Punctuation(y)) => x == y,
        _ => false,
    }
}

/// How a token is displayed: its kind, then its text in parentheses, such as
/// `Keyword(i32)` or `Integer(42)`.
pub open spec fn spec_display(t: TokenView) -> Seq<char> {
    match t {
        TokenView::Keyword(k) => "Keyword("@ + k.spec_text() + ")"@,
        TokenView::Identifier(s) => "Identifier("@ + s + ")"@,
        TokenView::Integer(v) => "Integer("@ + spec_int_text(v as int) + ")"@,
        TokenView::Operator(o) => "Operator("@ + o.spec_text() + ")"@,
        TokenView::Punctuation(p) => "Punctuation("@ + p.spec_text() + ")"@,
    }
}

impl Token {
    /// The token's kind and text, such as `Keyword(i32)` or `Integer(42)`.
    pub fn to_string(&self) -> (s: String)
        ensures
            s@ == spec_display(self@),
    {
        let mut s;
        match self {
            Token::Keyword(k) => {
                s = String::from_str("Keyword(");
                s.append(k.to_string().as_str());
            },
            Token::Identifier(name) => {
                s = String::from_str("Identifier(");
                s.append(name.as_str());
            },
            Token::Integer(v) => {
                s = String::from_str("Integer(");
                push_int(&mut s, *v);
            },
            Token::Operator(o) => {
                s = String::from_str("Operator(");
                s.append(o.to_string().as_str());
            },
            Token::Punctuation(p) => {
                s = String::from_str("Punctuation(");
                s.append(p.to_string().as_str());
            },
        }
        s.append(")");
        s
    }

    /// A copy of this token.
    pub fn duplicate(&self) -> (r: Token)
        ensures
            r@ == self@,
    {
        match self {
            Token::Keyword(k) => Token::Keyword(*k),
            Token::Identifier(s) => Token::Identifier(s.clone()),
            Token::Integer(v) => Token::Integer(*v),
            Token::Operator(o) => Token::Operator(*o),
            Token::Punctuation(p) => Token::Punctuation(*p),
        }
    }

    /// The one-byte code of this token, used by the parser to match kinds.
    pub fn code(&self) -> (c: u8)
        ensures
            c == spec_code(self@),
    {
        match self {
            Token::Keyword(k) => match k {
                KeywordToken::I32 => 1,
                KeywordToken::If => 2,
                KeywordToken::Else => 3,
                KeywordToken::While => 4,
            },
            Token::Identifier(_) => 5,
            Token::Integer(_) => 6,
            Token::Operator(op) => match op {
                OperatorToken::Equal => 7,
                OperatorToken::Assign => 8,
                OperatorToken::Mul => 9,
                OperatorToken::Less => 10,
                OperatorToken::Add => 11,
            },
            Token::Punctuation(p) => match p {
                PunctuationToken::ParenLeft => 12,
                PunctuationToken::ParenRight => 13,
                PunctuationToken::BraceLeft => 14,
                PunctuationToken::BraceRight => 15,
                PunctuationToken::Semicolon => 16,
            },
        }
    }
}

/// Every code lies in 1..=16, and two tokens share a code exactly when they are
/// of the same kind: the code identifies the kind of a token.
pub proof fn lemma_code_identifies_kind(a: TokenView, b: TokenView)
    ensures
        1 <= spec_code(a) <= 16,
        spec_code(a) == spec_code(b) <==> same_kind(a, b),
{
}

/// The codes come in blocks by category: keywords 1-4, identifiers 5,
/// integers 6, operators 7-11, punctuation 12-16 (within a category the
/// order is `i32`, `if`, `else`, `while`; `==`, `=`, `*`, `<`, `+`; `(`,
/// `)`, `{`, `}`, `;`).
pub proof fn lemma_code_blocks(t: TokenView)
    ensures
        t is Keyword ==> 1 <= spec_code(t) <= 4,
        t is Identifier ==> spec_code(t) == 5,
        t is Integer ==> spec_code(t) == 6,
        t is Operator ==> 7 <= spec_code(t) <= 11,
        t is Punctuation ==> 12 <= spec_code(t) <= 16,
        t == TokenView::Keyword(KeywordToken::I32) ==> spec_code(t) == 1,
        t == TokenView::Keyword(KeywordToken::While) ==> spec_code(t) == 4,
        t == TokenView::Operator(OperatorToken::Equal) ==> spec_code(t) == 7,
        t == TokenView::Operator(OperatorToken::Add) ==> spec_code(t) == 11,
        t == TokenView::Punctuation(PunctuationToken::ParenLeft) ==> spec_code(t) == 12,
        t == TokenView::Punctuation(PunctuationToken::Semicolon) ==> spec_code(t) == 16,
{
}

} // verus!
