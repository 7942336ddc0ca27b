use iake::input::file_input::FileInput;
use iake::lexer::result::Error as LexerError;
use iake::report::{format_error, format_token, line_count, text_report, token_len, tokens_report};
use iake::token::{KeywordToken, OperatorToken, PunctuationToken, Token};

fn report(text: &str) -> String {
    tokens_report(FileInput::from_chars(text.chars().collect()), text.lines().count())
}

#[test]
fn lists_tokens_line_by_line() {
    let text = "i32 a = 1;\n# comment\nif (a == 1) {\n  b = 20;\n}\n";
    let expected = [
        "<Keyword, i32><Identifier, a><Operator, =><Integer, 1><Punctuation, ;>",
        "<Keyword, if><Punctuation, (><Identifier, a><Operator, ==><Integer, 1><Punctuation, )><Punctuation, {>",
        "  <Identifier, b><Operator, =><Integer, 20><Punctuation, ;>",
        "<Punctuation, }>",
    ]
    .join("\n");
    assert_eq!(report(text), expected);
}

#[test]
fn indents_to_first_token_column() {
    assert_eq!(report("\n    x   *  y\n"), "    <Identifier, x><Operator, *><Identifier, y>");
}

#[test]
fn reports_lexing_error_with_position() {
    assert_eq!(report("i32 x = 0123;"), "(line 0, col 9): UnexpectedChar('1')");
    assert_eq!(report("a = 1;\nb = @;"), "(line 1, col 4): InvalidChar('@')");
}

#[test]
fn empty_text_lists_nothing() {
    assert_eq!(report(""), "");
    assert_eq!(report("  # only a comment"), "");
}

#[test]
fn token_lengths() {
    assert_eq!(token_len(&Token::Keyword(KeywordToken::While)), 5);
    assert_eq!(token_len(&Token::Identifier("abc".into())), 3);
    assert_eq!(token_len(&Token::Integer(-120)), 4);
    assert_eq!(token_len(&Token::Integer(0)), 1);
    assert_eq!(token_len(&Token::Operator(OperatorToken::Equal)), 2);
    assert_eq!(token_len(&Token::Punctuation(PunctuationToken::Semicolon)), 1);
}

#[test]
fn formats_tokens_and_errors() {
    assert_eq!(format_token(&Token::Operator(OperatorToken::Less)), "<Operator, <>");
    assert_eq!(format_token(&Token::Integer(7)), "<Integer, 7>");
    assert_eq!(format_token(&Token::Punctuation(PunctuationToken::BraceRight)), "<Punctuation, }>");
    assert_eq!(format_error(&LexerError::InvalidChar('$')), "InvalidChar('$')");
    assert_eq!(format_error(&LexerError::TokenTooLong("ab".into())), "TokenTooLong(\"ab\")");
    assert_eq!(
        format_error(&LexerError::InvalidInteger("99999999999999999999".into())),
        "InvalidInteger(\"99999999999999999999\")"
    );
}

#[test]
fn token_display() {
    assert_eq!(Token::Keyword(KeywordToken::I32).to_string(), "Keyword(i32)");
    assert_eq!(Token::Identifier("x".into()).to_string(), "Identifier(x)");
    assert_eq!(Token::Integer(-5).to_string(), "Integer(-5)");
    assert_eq!(Token::Operator(OperatorToken::Add).to_string(), "Operator(+)");
    assert_eq!(Token::Punctuation(PunctuationToken::ParenLeft).to_string(), "Punctuation(()");
}

#[test]
fn line_count_matches_str_lines() {
    for text in ["", "a", "a\n", "a\nb", "\n\n", "a\r\nb\r\n", "\nx\n\ny", "\r"] {
        let chars: Vec<char> = text.chars().collect();
        assert_eq!(line_count(&chars), text.lines().count(), "{:?}", text);
    }
}

#[test]
fn text_report_counts_its_own_lines() {
    let text = "i32 a = 1;\n\n  a = a + 2;";
    assert_eq!(text_report(text.chars().collect()), report(text));
    assert_eq!(
        text_report(text.chars().collect()),
        "<Keyword, i32><Identifier, a><Operator, =><Integer, 1><Punctuation, ;>\n  <Identifier, a><Operator, =><Identifier, a><Operator, +><Integer, 2><Punctuation, ;>"
    );
}
