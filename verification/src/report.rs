//! The token listing of a source text: every token as `<Kind, text>`, laid
//! out on the line where it stands and indented to the column of the line's
//! first token; or, when lexing fails, the position and kind of the error.
use vstd::prelude::*;

use crate::ast::{join_lines, join_with_newlines, string_views};
use crate::input::{Cursor, Input, lemma_cursor_after_same_line};
use crate::input::file_input::FileInput;
use crate::lexer::{BUF_SIZE, Lexer, lemma_lex_next, lemma_trivia_end_bounds, lex_next, trivia_end};
use crate::lexer::automaton::identifier::lemma_identifier_token_shape;
use crate::lexer::automaton::integer::{lemma_decimal_of_digits, lemma_integer_token_shape};
use crate::lexer::result::{Error as LexerError, ErrorView as LexerErrorView};
use crate::parser::{cursor_at, remaining};
use crate::text::{all_digits, is_digit, is_ident_continue, is_ident_start, push_decimal, push_int, spec_decimal, spec_int_text};
use crate::token::{KeywordToken, OperatorToken, Token, TokenView};

verus! {

/// The length of a token's text: in bytes of UTF-8 for identifiers, in
/// characters otherwise (all of them ASCII).
pub open spec fn spec_token_len(t: TokenView) -> usize {
    match t {
        TokenView::Keyword(k) => k.spec_text().len() as usize,
        TokenView::Identifier(s) => vstd::utf8::encode_utf8(s).len() as usize,
        TokenView::Integer(v) => spec_int_text(v as int).len() as usize,
        TokenView::Operator(o) => o.spec_text().len() as usize,
        TokenView::Punctuation(_) => 1,
    }
}

/// A token as listed: `<Kind, text>`.
pub open spec fn spec_format_token(t: TokenView) -> Seq<char> {
    match t {
        TokenView::Keyword(k) => "<Keyword, "@ + k.spec_text() + ">"@,
        TokenView::Identifier(s) => "<Identifier, "@ + s + ">"@,
        TokenView::Integer(v) => "<Integer, "@ + spec_int_text(v as int) + ">"@,
        TokenView::Operator(o) => "<Operator, "@ + o.spec_text() + ">"@,
        TokenView::Punctuation(p) => "<Punctuation, "@ + p.spec_text() + ">"@,
    }
}

/// A lexing error as listed, such as `UnexpectedChar('1')` or
/// `InvalidInteger("99999999999999999999")`.
pub open spec fn spec_format_error(e: LexerErrorView) -> Seq<char> {
    match e {
        LexerErrorView::UnexpectedChar(c) => "UnexpectedChar('"@ + seq![c] + "')"@,
        LexerErrorView::InvalidChar(c) => "InvalidChar('"@ + seq![c] + "')"@,
        LexerErrorView::InvalidInteger(s) => "InvalidInteger(\""@ + s + "\")"@,
        LexerErrorView::TokenTooLong(s) => "TokenTooLong(\""@ + s + "\")"@,
    }
}

/// `(line L, col C): error`
pub open spec fn error_line(cursor: (nat, nat), e: LexerErrorView) -> Seq<char> {
    "(line "@ + spec_decimal(cursor.0) + ", col "@ + spec_decimal(cursor.1) + "): "@
        + spec_format_error(e)
}

/// `a - b`, or 0 when `b` is larger.
pub open spec fn saturating_sub(a: nat, b: nat) -> nat {
    if a >= b {
        (a - b) as nat
    } else {
        0
    }
}

/// The number of newlines in `s`.
pub open spec fn newline_count(s: Seq<char>) -> nat
    decreases s.len(),
{
    if s.len() == 0 {
        0
    } else {
        newline_count(s.drop_last()) + if s.last() == '\n' {
            1nat
        } else {
            0nat
        }
    }
}

/// The number of lines of a text, counted as `str::lines` counts them: each
/// newline ends a line, a last line without a newline counts too, and an
/// empty text has none.
pub open spec fn spec_line_count(s: Seq<char>) -> nat {
    newline_count(s) + if s.len() > 0 && s.last() != '\n' {
        1nat
    } else {
        0nat
    }
}

/// A token's length is the number of characters the lexing step took for it,
/// and a token stands on one line: after a step that yields token `t`, the
/// cursor is on the line of the token's first character, `spec_token_len(t)`
/// columns to its right. So the column that the listing gives a token (the
/// cursor's column less the token's length) is the column where it starts.
pub proof fn lemma_token_len_is_consumed(chars: Seq<char>, i: int)
    requires
        0 <= i <= chars.len(),
    ensures
        lex_next(chars, i) matches (Ok(Some(t)), j) ==> {
            let s = trivia_end(chars, i);
            &&& j - s == spec_token_len(t)
            &&& cursor_at(chars, j) == (
                cursor_at(chars, s).0,
                cursor_at(chars, s).1 + spec_token_len(t) as nat,
            )
        },
{
    reveal(lex_next);
    lemma_trivia_end_bounds(chars, i);
    let s = trivia_end(chars, i);
    if let (Ok(Some(t)), j) = lex_next(chars, i) {
        let m = BUF_SIZE as int;
        let c = chars[s];
        assert(s < chars.len());
        if is_digit(c) {
            lemma_integer_token_shape(chars, s, m);
            let sub = chars.subrange(s, j);
            assert(sub[0] == c);
            lemma_decimal_of_digits(sub);
            assert forall|k: int| s <= k < j implies chars[k] != '\n' by {
                assert(is_digit(sub[k - s]));
            }
        } else if is_ident_start(c) {
            lemma_identifier_token_shape(chars, s, m);
            let sub = chars.subrange(s, j);
            assert forall|k: int| 0 <= k < sub.len() implies '\0' <= #[trigger] sub[k] <= '\u{7f}' by {
                if k > 0 {
                    assert(is_ident_continue(chars[s + k]));
                }
            }
            vstd::utf8::is_ascii_chars_encode_utf8(sub);
            assert forall|k: int| s <= k < j implies chars[k] != '\n' by {
                if k > s {
                    assert(is_ident_continue(chars[k]));
                }
            }
            match t {
                TokenView::Keyword(kw) => {
                    assert(sub.len() == kw.spec_text().len());
                },
                _ => {},
            }
        }
        lemma_cursor_after_same_line(chars, s, j);
    }
}

/// A listed token: its line, the column where it starts, and its text.
pub type Record = (nat, nat, Seq<char>);

/// The listed tokens from position `i` on, and the error line if lexing
/// fails before the end. A token's column is the cursor's column after it
/// less its length.
pub open spec fn lex_report(chars: Seq<char>, i: int) -> (Seq<Record>, Option<Seq<char>>)
    decreases remaining(chars, i),
{
    let (r, j) = lex_next(chars, i);
    match r {
        Ok(Some(t)) => {
            proof {
                lemma_lex_next(chars, i);
            }
            let cursor = cursor_at(chars, j);
            let record = (
                cursor.0,
                saturating_sub(cursor.1, spec_token_len(t) as nat),
                spec_format_token(t),
            );
            let (rest, err) = lex_report(chars, j);
            (seq![record] + rest, err)
        },
        Ok(None) => (Seq::empty(), None),
        Err(e) => (Seq::empty(), Some(error_line(cursor_at(chars, j), e))),
    }
}

/// The records on line `line`, in order.
pub open spec fn on_line(records: Seq<Record>, line: nat) -> Seq<Record>
    decreases records.len(),
{
    if records.len() == 0 {
        Seq::empty()
    } else {
        let before = on_line(records.drop_last(), line);
        if records.last().0 == line {
            before.push(records.last())
        } else {
            before
        }
    }
}

/// The texts of the records, one after the other.
pub open spec fn texts(records: Seq<Record>) -> Seq<char>
    decreases records.len(),
{
    if records.len() == 0 {
        Seq::empty()
    } else {
        texts(records.drop_last()) + records.last().2
    }
}

pub open spec fn spaces(n: nat) -> Seq<char> {
    Seq::new(n, |k: int| ' ')
}

/// The output line for source line `line`: none when it holds no token.
pub open spec fn line_text(records: Seq<Record>, line: nat) -> Seq<Seq<char>> {
    let on = on_line(records, line);
    if on.len() == 0 {
        Seq::empty()
    } else {
        seq![spaces(on[0].1) + texts(on)]
    }
}

/// The output lines for the first `n` source lines.
pub open spec fn report_lines(records: Seq<Record>, n: nat) -> Seq<Seq<char>>
    decreases n,
{
    if n == 0 {
        Seq::empty()
    } else {
        report_lines(records, (n - 1) as nat) + line_text(records, (n - 1) as nat)
    }
}

/// The listing of the text from position `i` on, for a text of `line_count`
/// lines: the error line when lexing fails, else the token lines joined by
/// newlines.
pub open spec fn report_text(chars: Seq<char>, i: int, line_count: nat) -> Seq<char> {
    let (records, err) = lex_report(chars, i);
    match err {
        Some(message) => message,
        None => join_lines(report_lines(records, line_count), "\n"@),
    }
}

/// A token as listed, with its place.
struct TokenInfo {
    line: usize,
    col: usize,
    text: String,
}

spec fn infos_view(v: Seq<TokenInfo>) -> Seq<Record> {
    v.map_values(|t: TokenInfo| (t.line as nat, t.col as nat, t.text@))
}

/// The length of a token's text (see [`spec_token_len`]).
pub fn token_len(token: &Token) -> (r: usize)
    ensures
        r == spec_token_len(token@),
{
    match token {
        Token::Keyword(k) => match k {
            KeywordToken::I32 => 3,
            KeywordToken::If => 2,
            KeywordToken::Else => 4,
            KeywordToken::While => 5,
        },
        Token::Identifier(s) => s.as_str().len(),
        Token::Integer(n) => {
            let mut text = String::new();
            push_int(&mut text, *n);
            text.as_str().unicode_len()
        },
        Token::Operator(op) => match op {
            OperatorToken::Equal => 2,
            OperatorToken::Assign => 1,
            OperatorToken::Mul => 1,
            OperatorToken::Less => 1,
            OperatorToken::Add => 1,
        },
        Token::Punctuation(_) => 1,
    }
}

/// The token as listed: `<Kind, text>`.
pub fn format_token(token: &Token) -> (r: String)
    ensures
        r@ == spec_format_token(token@),
{
    let mut r;
    match token {
        Token::Keyword(k) => {
            r = String::from_str("<Keyword, ");
            r.append(k.to_string().as_str());
        },
        Token::Identifier(s) => {
            r = String::from_str("<Identifier, ");
            r.append(s.as_str());
        },
        Token::Integer(n) => {
            r = String::from_str("<Integer, ");
            push_int(&mut r, *n);
        },
        Token::Operator(op) => {
            r = String::from_str("<Operator, ");
            r.append(op.to_string().as_str());
        },
        Token::Punctuation(p) => {
            r = String::from_str("<Punctuation, ");
            r.append(p.to_string().as_str());
        },
    }
    r.append(">");
    r
}

/// The lexing error as listed, such as `UnexpectedChar('1')`.
pub fn format_error(err: &LexerError) -> (r: String)
    ensures
        r@ == spec_format_error(err@),
{
    let mut r;
    match err {
        LexerError::UnexpectedChar(c) => {
            r = String::from_str("UnexpectedChar('");
            r.push(*c);
            r.append("')");
        },
        LexerError::InvalidChar(c) => {
            r = String::from_str("InvalidChar('");
            r.push(*c);
            r.append("')");
        },
        LexerError::InvalidInteger(s) => {
            r = String::from_str("InvalidInteger(\"");
            r.append(s.as_str());
            r.append("\")");
        },
        LexerError::TokenTooLong(s) => {
            r = String::from_str("TokenTooLong(\"");
            r.append(s.as_str());
            r.append("\")");
        },
    }
    r
}

/// `(line L, col C): error`
fn format_error_line(cursor: Cursor, err: &LexerError) -> (r: String)
    ensures
        r@ == error_line(cursor@, err@),
{
    let mut r = String::from_str("(line ");
    push_decimal(&mut r, cursor.line as u64);
    r.append(", col ");
    push_decimal(&mut r, cursor.column as u64);
    r.append("): ");
    r.append(format_error(err).as_str());
    r
}

/// `n` spaces.
fn spaces_string(n: usize) -> (r: String)
    ensures
        r@ == spaces(n as nat),
{
    let mut r = String::new();
    let mut k: usize = 0;
    while k < n
        invariant
            k <= n,
            r@ == spaces(k as nat),
        decreases n - k,
    {
        r.push(' ');
        k = k + 1;
        assert(r@ =~= spaces(k as nat));
    }
    r
}

/// Lists the tokens of `input` from its cursor on (see [`report_text`]);
/// `line_count` is the number of lines of the text.
pub fn tokens_report<I: Input>(input: I, line_count: usize) -> (r: String)
    requires
        input.wf(),
    ensures
        r@ == report_text(input.chars(), input.pos(), line_count as nat),
{
    let ghost chars = input.chars();
    let ghost i0 = input.pos();
    let mut lexer = Lexer::new(input);
    let mut tokens: Vec<TokenInfo> = Vec::new();
    loop
        invariant
            lexer.wf(),
            lexer.chars() == chars,
            chars == input.chars(),
            i0 == input.pos(),
            lex_report(chars, i0).1 == lex_report(chars, lexer.pos()).1,
            lex_report(chars, i0).0 == infos_view(tokens@) + lex_report(chars, lexer.pos()).0,
        ensures
            lex_report(chars, i0) == (infos_view(tokens@), None::<Seq<char>>),
        decreases remaining(chars, lexer.pos()),
    {
        let ghost i = lexer.pos();
        proof {
            lemma_lex_next(chars, i);
            reveal(lex_next);
        }
        match lexer.next_token() {
            Ok(Some(token)) => {
                let cursor = lexer.cursor();
                let col = cursor.column.saturating_sub(token_len(&token));
                let ghost before = tokens@;
                tokens.push(TokenInfo { line: cursor.line, col, text: format_token(&token) });
                proof {
                    assert(infos_view(tokens@) =~= infos_view(before).push(
                        (cursor.line as nat, col as nat, spec_format_token(token@)),
                    ));
                    let rest = lex_report(chars, lexer.pos()).0;
                    assert(infos_view(before) + (seq![
                        (cursor.line as nat, col as nat, spec_format_token(token@)),
                    ] + rest) =~= infos_view(tokens@) + rest);
                }
            },
            Ok(None) => {
                assert(infos_view(tokens@) + Seq::<Record>::empty() =~= infos_view(tokens@));
                break ;
            },
            Err(e) => {
                let cursor = lexer.cursor();
                return format_error_line(cursor, &e);
            },
        }
    }
    let ghost records = infos_view(tokens@);
    let n = tokens.len();
    let mut lines: Vec<String> = Vec::new();
    let mut i: usize = 0;
    while i < line_count
        invariant
            i <= line_count,
            n == tokens@.len(),
            records == infos_view(tokens@),
            string_views(lines@) == report_lines(records, i as nat),
        decreases line_count - i,
    {
        // gather the tokens on line `i`
        let mut line = String::new();
        let mut found = false;
        let mut indent: usize = 0;
        let mut k: usize = 0;
        while k < n
            invariant
                k <= n,
                n == tokens@.len(),
                records == infos_view(tokens@),
                found == (on_line(records.take(k as int), i as nat).len() > 0),
                found ==> indent == on_line(records.take(k as int), i as nat)[0].1,
                line@ == texts(on_line(records.take(k as int), i as nat)),
            decreases n - k,
        {
            let ghost before = on_line(records.take(k as int), i as nat);
            assert(records.take(k + 1).drop_last() =~= records.take(k as int));
            if tokens[k].line == i {
                if !found {
                    found = true;
                    indent = tokens[k].col;
                }
                line.append(tokens[k].text.as_str());
                proof {
                    let after = on_line(records.take(k + 1), i as nat);
                    assert(after.drop_last() =~= before);
                }
            }
            k = k + 1;
        }
        assert(records.take(n as int) =~= records);
        let ghost old_lines = string_views(lines@);
        if found {
            let mut out = spaces_string(indent);
            out.append(line.as_str());
            lines.push(out);
        }
        i = i + 1;
        assert(string_views(lines@) =~= report_lines(records, i as nat));
    }
    join_with_newlines(&lines)
}

proof fn lemma_newline_count_bound(s: Seq<char>)
    ensures
        newline_count(s) <= s.len(),
    decreases s.len(),
{
    if s.len() > 0 {
        lemma_newline_count_bound(s.drop_last());
    }
}

/// The number of lines of `chars` (see [`spec_line_count`]).
pub fn line_count(chars: &[char]) -> (n: usize)
    ensures
        n == spec_line_count(chars@),
{
    let len = chars.len();
    let mut count: usize = 0;
    let mut i: usize = 0;
    while i < len
        invariant
            len == chars@.len(),
            i <= len,
            count == newline_count(chars@.take(i as int)),
            count <= i,
        decreases len - i,
    {
        assert(chars@.take(i + 1).drop_last() =~= chars@.take(i as int));
        if chars[i] == '\n' {
            count = count + 1;
        }
        i = i + 1;
    }
    assert(chars@.take(len as int) =~= chars@);
    proof {
        if len > 0 {
            lemma_newline_count_bound(chars@.drop_last());
        }
    }
    if len > 0 && chars[len - 1] != '\n' {
        count = count + 1;
    }
    count
}

/// The token listing of a whole text (see [`report_text`]), counting its
/// lines as `str::lines` does.
pub fn text_report(chars: Vec<char>) -> (r: String)
    ensures
        r@ == report_text(chars@, 0, spec_line_count(chars@)),
{
    let n = line_count(chars.as_slice());
    let input = FileInput::from_chars(chars);
    tokens_report(input, n)
}

} // verus!
