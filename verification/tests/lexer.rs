use iake::input::file_input::FileInput;
use iake::lexer::Lexer;
use iake::report::token_len;
use iake::lexer::result::Error as LexerError;
use iake::token::{KeywordToken, OperatorToken, PunctuationToken, Token};

fn lexer(input: &str) -> Lexer<FileInput> {
    Lexer::new(FileInput::from_chars(input.chars().collect()))
}

#[test]
fn whitespace_only_returns_eof() {
    let mut lexer = lexer("   ");
    assert_eq!(lexer.next_token(), Ok(None));
}

#[test]
fn whitespace_before_token() {
    let mut lexer = lexer("   ;");
    assert_eq!(
        lexer.next_token(),
        Ok(Some(Token::Punctuation(PunctuationToken::Semicolon)))
    );
}

#[test]
fn newlines_and_spaces() {
    let mut lexer = lexer("  \n  \n  ;");
    assert_eq!(
        lexer.next_token(),
        Ok(Some(Token::Punctuation(PunctuationToken::Semicolon)))
    );
}

#[test]
fn invalid_char_after_whitespace() {
    let mut lexer = lexer(" @ ");
    assert!(matches!(lexer.next_token(), Err(LexerError::InvalidChar('@'))));
}

#[test]
fn identifier_before_operator_no_space() {
    let mut lexer = lexer("a=1");
    assert_eq!(lexer.next_token(), Ok(Some(Token::Identifier("a".into()))));
}

#[test]
fn single_line_comment_before_token() {
    let mut lexer = lexer("# comment\na");
    assert_eq!(lexer.next_token(), Ok(Some(Token::Identifier("a".into()))));
}

#[test]
fn comment_at_eof() {
    let mut lexer = lexer("# comment");
    assert_eq!(lexer.next_token(), Ok(None));
}

#[test]
fn consecutive_comment_lines() {
    let mut lexer = lexer("# c1\n# c2\na");
    assert_eq!(lexer.next_token(), Ok(Some(Token::Identifier("a".into()))));
}

#[test]
fn comment_with_leading_whitespace() {
    let mut lexer = lexer("  # comment\n  a");
    assert_eq!(lexer.next_token(), Ok(Some(Token::Identifier("a".into()))));
}

#[test]
fn whitespace_then_comment_then_eof() {
    let mut lexer = lexer("  \n  # comment\n  ");
    assert_eq!(lexer.next_token(), Ok(None));
}

#[test]
fn digit_start_dispatches_to_integer_not_identifier() {
    let mut lexer = lexer("123abc");
    assert_eq!(lexer.next_token(), Ok(Some(Token::Integer(123))));
    assert_eq!(lexer.next_token(), Ok(Some(Token::Identifier("abc".into()))));
}

#[test]
fn asterisk_is_tokenized_as_operator() {
    let mut lexer = lexer("*");
    assert_eq!(lexer.next_token(), Ok(Some(Token::Operator(OperatorToken::Mul))));
}

#[test]
fn less_than_is_tokenized_as_operator() {
    let mut lexer = lexer("<");
    assert_eq!(lexer.next_token(), Ok(Some(Token::Operator(OperatorToken::Less))));
}

#[test]
fn plus_is_tokenized_as_operator() {
    let mut lexer = lexer("+");
    assert_eq!(lexer.next_token(), Ok(Some(Token::Operator(OperatorToken::Add))));
}

#[test]
fn asterisk_operator_in_expression() {
    let mut lexer = lexer("a * b");
    assert_eq!(lexer.next_token(), Ok(Some(Token::Identifier("a".into()))));
    assert_eq!(lexer.next_token(), Ok(Some(Token::Operator(OperatorToken::Mul))));
    assert_eq!(lexer.next_token(), Ok(Some(Token::Identifier("b".into()))));
}

#[test]
fn less_than_operator_in_expression() {
    let mut lexer = lexer("b < 10");
    assert_eq!(lexer.next_token(), Ok(Some(Token::Identifier("b".into()))));
    assert_eq!(lexer.next_token(), Ok(Some(Token::Operator(OperatorToken::Less))));
    assert_eq!(lexer.next_token(), Ok(Some(Token::Integer(10))));
}

#[test]
fn plus_operator_in_expression() {
    let mut lexer = lexer("a + 1");
    assert_eq!(lexer.next_token(), Ok(Some(Token::Identifier("a".into()))));
    assert_eq!(lexer.next_token(), Ok(Some(Token::Operator(OperatorToken::Add))));
    assert_eq!(lexer.next_token(), Ok(Some(Token::Integer(1))));
}

#[test]
fn equals_start_dispatches_to_operator_not_punctuation() {
    let mut lexer = lexer("==");
    assert_eq!(lexer.next_token(), Ok(Some(Token::Operator(OperatorToken::Equal))));
}

#[test]
fn keyword_then_identifier() {
    let mut lexer = lexer("i32 a");
    assert_eq!(lexer.next_token(), Ok(Some(Token::Keyword(KeywordToken::I32))));
    assert_eq!(lexer.next_token(), Ok(Some(Token::Identifier("a".into()))));
}

#[test]
fn full_declaration_statement() {
    let mut lexer = lexer("i32 a = 1;");
    assert_eq!(lexer.next_token(), Ok(Some(Token::Keyword(KeywordToken::I32))));
    assert_eq!(lexer.next_token(), Ok(Some(Token::Identifier("a".into()))));
    assert_eq!(lexer.next_token(), Ok(Some(Token::Operator(OperatorToken::Assign))));
    assert_eq!(lexer.next_token(), Ok(Some(Token::Integer(1))));
    assert_eq!(
        lexer.next_token(),
        Ok(Some(Token::Punctuation(PunctuationToken::Semicolon)))
    );
    assert_eq!(lexer.next_token(), Ok(None));
}

#[test]
fn if_else_block() {
    let mut lexer = lexer("if (a == 1) { b = 1; } else { b = 2; }");
    assert_eq!(lexer.next_token(), Ok(Some(Token::Keyword(KeywordToken::If))));
    assert_eq!(
        lexer.next_token(),
        Ok(Some(Token::Punctuation(PunctuationToken::ParenLeft)))
    );
    assert_eq!(lexer.next_token(), Ok(Some(Token::Identifier("a".into()))));
    assert_eq!(lexer.next_token(), Ok(Some(Token::Operator(OperatorToken::Equal))));
    assert_eq!(lexer.next_token(), Ok(Some(Token::Integer(1))));
    assert_eq!(
        lexer.next_token(),
        Ok(Some(Token::Punctuation(PunctuationToken::ParenRight)))
    );
    assert_eq!(
        lexer.next_token(),
        Ok(Some(Token::Punctuation(PunctuationToken::BraceLeft)))
    );
    assert_eq!(lexer.next_token(), Ok(Some(Token::Identifier("b".into()))));
    assert_eq!(lexer.next_token(), Ok(Some(Token::Operator(OperatorToken::Assign))));
    assert_eq!(lexer.next_token(), Ok(Some(Token::Integer(1))));
    assert_eq!(
        lexer.next_token(),
        Ok(Some(Token::Punctuation(PunctuationToken::Semicolon)))
    );
    assert_eq!(
        lexer.next_token(),
        Ok(Some(Token::Punctuation(PunctuationToken::BraceRight)))
    );
    assert_eq!(lexer.next_token(), Ok(Some(Token::Keyword(KeywordToken::Else))));
    assert_eq!(
        lexer.next_token(),
        Ok(Some(Token::Punctuation(PunctuationToken::BraceLeft)))
    );
    assert_eq!(lexer.next_token(), Ok(Some(Token::Identifier("b".into()))));
    assert_eq!(lexer.next_token(), Ok(Some(Token::Operator(OperatorToken::Assign))));
    assert_eq!(lexer.next_token(), Ok(Some(Token::Integer(2))));
    assert_eq!(
        lexer.next_token(),
        Ok(Some(Token::Punctuation(PunctuationToken::Semicolon)))
    );
    assert_eq!(
        lexer.next_token(),
        Ok(Some(Token::Punctuation(PunctuationToken::BraceRight)))
    );
    assert_eq!(lexer.next_token(), Ok(None));
}

#[test]
fn statement_with_comment() {
    let mut lexer = lexer("i32 a = 1; # inline comment\ni32 b = 2;");
    assert_eq!(lexer.next_token(), Ok(Some(Token::Keyword(KeywordToken::I32))));
    assert_eq!(lexer.next_token(), Ok(Some(Token::Identifier("a".into()))));
    assert_eq!(lexer.next_token(), Ok(Some(Token::Operator(OperatorToken::Assign))));
    assert_eq!(lexer.next_token(), Ok(Some(Token::Integer(1))));
    assert_eq!(
        lexer.next_token(),
        Ok(Some(Token::Punctuation(PunctuationToken::Semicolon)))
    );
    assert_eq!(lexer.next_token(), Ok(Some(Token::Keyword(KeywordToken::I32))));
}

#[test]
fn keyword_if_not_identifier() {
    let mut lexer = lexer("if");
    assert_eq!(lexer.next_token(), Ok(Some(Token::Keyword(KeywordToken::If))));
}

#[test]
fn keyword_else_not_identifier() {
    let mut lexer = lexer("else");
    assert_eq!(lexer.next_token(), Ok(Some(Token::Keyword(KeywordToken::Else))));
}

#[test]
fn keyword_while_not_identifier() {
    let mut lexer = lexer("while");
    assert_eq!(lexer.next_token(), Ok(Some(Token::Keyword(KeywordToken::While))));
}

#[test]
fn end_of_input_repeats() {
    let mut lexer = lexer("a  # tail");
    assert_eq!(lexer.next_token(), Ok(Some(Token::Identifier("a".into()))));
    assert_eq!(lexer.next_token(), Ok(None));
    assert_eq!(lexer.next_token(), Ok(None));
}

#[test]
fn cursor_counts_lines_and_columns() {
    let mut lexer = lexer("i32 a = 1;\n  b = 22;");
    for _ in 0..5 {
        lexer.next_token().unwrap();
    }
    assert_eq!((lexer.cursor().line, lexer.cursor().column), (0, 10));
    assert_eq!(lexer.next_token(), Ok(Some(Token::Identifier("b".into()))));
    assert_eq!((lexer.cursor().line, lexer.cursor().column), (1, 3));
    lexer.next_token().unwrap();
    assert_eq!(lexer.next_token(), Ok(Some(Token::Integer(22))));
    assert_eq!((lexer.cursor().line, lexer.cursor().column), (1, 8));
}

#[test]
fn unicode_whitespace_is_skipped() {
    let mut lexer = lexer("\u{3000}\u{a0}\t\r\na");
    assert_eq!(lexer.next_token(), Ok(Some(Token::Identifier("a".into()))));
}

#[test]
fn token_of_exactly_the_limit_then_eof_is_accepted() {
    let word: String = std::iter::repeat('x').take(512).collect();
    let mut lexer = lexer(&word);
    assert_eq!(lexer.next_token(), Ok(Some(Token::Identifier(word.clone()))));
}

#[test]
fn token_of_exactly_the_limit_then_more_input_is_accepted() {
    let word: String = std::iter::repeat('x').take(512).collect();
    let mut lexer = lexer(&format!("{};", word));
    assert_eq!(lexer.next_token(), Ok(Some(Token::Identifier(word.clone()))));
    assert_eq!(
        lexer.next_token(),
        Ok(Some(Token::Punctuation(PunctuationToken::Semicolon)))
    );
}

#[test]
fn token_longer_than_the_limit_is_too_long() {
    let word: String = std::iter::repeat('x').take(512).collect();
    let mut lexer = lexer(&format!("{}x ", word));
    assert_eq!(lexer.next_token(), Err(LexerError::TokenTooLong(word)));
}

#[test]
fn comment_leaves_its_newline_to_the_cursor() {
    let mut lexer = lexer("# c\nx");
    assert_eq!(lexer.next_token(), Ok(Some(Token::Identifier("x".into()))));
    assert_eq!((lexer.cursor().line, lexer.cursor().column), (1, 1));
}

#[test]
fn integer_overflow_is_invalid_integer() {
    let mut lexer = lexer("9223372036854775808;");
    assert_eq!(
        lexer.next_token(),
        Err(LexerError::InvalidInteger("9223372036854775808".into()))
    );
    let mut lexer2 = lexer_max();
    assert_eq!(lexer2.next_token(), Ok(Some(Token::Integer(i64::MAX))));
}

fn lexer_max() -> Lexer<FileInput> {
    lexer("9223372036854775807")
}

#[test]
fn leading_zero_rejected_in_lexer() {
    let mut lexer = lexer("x = 0123;");
    lexer.next_token().unwrap();
    lexer.next_token().unwrap();
    assert_eq!(lexer.next_token(), Err(LexerError::UnexpectedChar('1')));
    assert_eq!((lexer.cursor().line, lexer.cursor().column), (0, 5));
}

#[test]
fn leading_whitespace_and_comments_change_nothing() {
    let s = "i32 x = 0 ; x = x + 42; if (x < 7) { y = 1; } @";
    let mut plain = lexer(s);
    let mut padded = lexer(&format!(" \t# first\n\n  # second ## x\n{}", s));
    loop {
        let a = plain.next_token();
        let b = padded.next_token();
        assert_eq!(a, b);
        if !matches!(a, Ok(Some(_))) {
            break;
        }
    }
}

#[test]
fn token_length_is_the_characters_taken() {
    let mut lexer = lexer("  while x_1 == 1234 <;");
    let mut starts = Vec::new();
    while let Ok(Some(token)) = lexer.next_token() {
        let cursor = lexer.cursor();
        starts.push(cursor.column - token_len(&token));
    }
    assert_eq!(starts, vec![2, 8, 12, 15, 20, 21]);
}
