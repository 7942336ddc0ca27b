use iake::token::{KeywordToken, OperatorToken, PunctuationToken, Token};

#[test]
fn keyword_encoding() {
    assert_eq!(Token::Keyword(KeywordToken::I32).code(), 1);
    assert_eq!(Token::Keyword(KeywordToken::If).code(), 2);
    assert_eq!(Token::Keyword(KeywordToken::Else).code(), 3);
    assert_eq!(Token::Keyword(KeywordToken::While).code(), 4);
}

#[test]
fn identifier_encoding() {
    assert_eq!(Token::Identifier("x".into()).code(), 5);
}

#[test]
fn integer_encoding() {
    assert_eq!(Token::Integer(42).code(), 6);
}

#[test]
fn operator_encoding() {
    assert_eq!(Token::Operator(OperatorToken::Equal).code(), 7);
    assert_eq!(Token::Operator(OperatorToken::Assign).code(), 8);
    assert_eq!(Token::Operator(OperatorToken::Mul).code(), 9);
    assert_eq!(Token::Operator(OperatorToken::Less).code(), 10);
    assert_eq!(Token::Operator(OperatorToken::Add).code(), 11);
}

#[test]
fn punctuation_encoding() {
    assert_eq!(Token::Punctuation(PunctuationToken::ParenLeft).code(), 12);
    assert_eq!(Token::Punctuation(PunctuationToken::ParenRight).code(), 13);
    assert_eq!(Token::Punctuation(PunctuationToken::BraceLeft).code(), 14);
    assert_eq!(Token::Punctuation(PunctuationToken::BraceRight).code(), 15);
    assert_eq!(Token::Punctuation(PunctuationToken::Semicolon).code(), 16);
}

#[test]
fn codes_are_distinct_per_kind() {
    let tokens = vec![
        Token::Keyword(KeywordToken::I32),
        Token::Keyword(KeywordToken::If),
        Token::Keyword(KeywordToken::Else),
        Token::Keyword(KeywordToken::While),
        Token::Identifier("a".into()),
        Token::Integer(0),
        Token::Operator(OperatorToken::Equal),
        Token::Operator(OperatorToken::Assign),
        Token::Operator(OperatorToken::Mul),
        Token::Operator(OperatorToken::Less),
        Token::Operator(OperatorToken::Add),
        Token::Punctuation(PunctuationToken::ParenLeft),
        Token::Punctuation(PunctuationToken::ParenRight),
        Token::Punctuation(PunctuationToken::BraceLeft),
        Token::Punctuation(PunctuationToken::BraceRight),
        Token::Punctuation(PunctuationToken::Semicolon),
    ];
    let codes: Vec<u8> = tokens.iter().map(|t| t.code()).collect();
    assert_eq!(codes, (1..=16).collect::<Vec<u8>>());
    assert_eq!(Token::Identifier("other".into()).code(), Token::Identifier("a".into()).code());
    assert_eq!(Token::Integer(-7).code(), Token::Integer(0).code());
}

#[test]
fn token_texts() {
    assert_eq!(KeywordToken::While.to_string(), "while");
    assert_eq!(OperatorToken::Equal.to_string(), "==");
    assert_eq!(PunctuationToken::BraceLeft.to_string(), "{");
}

#[test]
fn duplicate_keeps_token() {
    let t = Token::Identifier("name".into());
    assert_eq!(t.duplicate(), t);
}
