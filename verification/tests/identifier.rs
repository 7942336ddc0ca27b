use iake::input::Input;
use iake::input::file_input::FileInput;
use iake::lexer::automaton::Automaton;
use iake::lexer::automaton::identifier::IdentifierAutomaton;
use iake::lexer::result::{Error as LexerError, LexerResult};
use iake::token::{KeywordToken, Token};

fn try_accept(input: &str, mut automaton: IdentifierAutomaton) -> (LexerResult, FileInput) {
    let mut buf = ['\0'; 1024];
    let mut input = FileInput::from_chars(input.chars().collect());
    let result = automaton.try_accept(&mut buf, 1024, &mut input);
    (result, input)
}

#[test]
fn accepts_keyword_if() {
    let (result, _) = try_accept("if", IdentifierAutomaton::default());
    assert_eq!(result, Ok(Some(Token::Keyword(KeywordToken::If))));
}

#[test]
fn accepts_keyword_else() {
    let (result, _) = try_accept("else", IdentifierAutomaton::default());
    assert_eq!(result, Ok(Some(Token::Keyword(KeywordToken::Else))));
}

#[test]
fn accepts_keyword_i32() {
    let (result, _) = try_accept("i32", IdentifierAutomaton::default());
    assert_eq!(result, Ok(Some(Token::Keyword(KeywordToken::I32))));
}

#[test]
fn accepts_identifier() {
    let (result, _) = try_accept("my_var1", IdentifierAutomaton::default());
    assert_eq!(result, Ok(Some(Token::Identifier("my_var1".into()))));
}

#[test]
fn accepts_underscore_prefix() {
    let (result, _) = try_accept("_tmp", IdentifierAutomaton::default());
    assert_eq!(result, Ok(Some(Token::Identifier("_tmp".into()))));
}

#[test]
fn stops_before_paren() {
    let (result, input) = try_accept("if(flag)", IdentifierAutomaton::default());
    assert_eq!(result, Ok(Some(Token::Keyword(KeywordToken::If))));
    assert_eq!(input.peek(), Some('('));
}

#[test]
fn rejects_non_alpha_start() {
    let (result, _) = try_accept("1var", IdentifierAutomaton::default());
    assert!(matches!(result, Err(LexerError::UnexpectedChar('1'))));
}

#[test]
fn identifier_accepts_empty_input_as_eof() {
    let (result, _) = try_accept("", IdentifierAutomaton::default());
    assert_eq!(result, Ok(None));
}

#[test]
fn keyword_prefixes_are_identifiers() {
    let (result, _) = try_accept("iff", IdentifierAutomaton::new());
    assert_eq!(result, Ok(Some(Token::Identifier("iff".into()))));
    let (result, _) = try_accept("i3", IdentifierAutomaton::new());
    assert_eq!(result, Ok(Some(Token::Identifier("i3".into()))));
    let (result, _) = try_accept("While", IdentifierAutomaton::new());
    assert_eq!(result, Ok(Some(Token::Identifier("While".into()))));
}

#[test]
fn identifier_limit_counts_characters() {
    let mut buf = ['\0'; 4];
    let mut input = FileInput::from_chars("abcd e".chars().collect());
    let result = IdentifierAutomaton::new().try_accept(&mut buf, 3, &mut input);
    assert_eq!(result, Err(LexerError::TokenTooLong("abc".into())));
    assert_eq!(input.peek(), Some('d'));
    let mut input = FileInput::from_chars("abc".chars().collect());
    let result = IdentifierAutomaton::new().try_accept(&mut buf, 3, &mut input);
    assert_eq!(result, Ok(Some(Token::Identifier("abc".into()))));
    let mut input = FileInput::from_chars("abc)".chars().collect());
    let result = IdentifierAutomaton::new().try_accept(&mut buf, 3, &mut input);
    assert_eq!(result, Ok(Some(Token::Identifier("abc".into()))));
    assert_eq!(input.peek(), Some(')'));
    let mut input = FileInput::from_chars("abc d".chars().collect());
    let result = IdentifierAutomaton::new().try_accept(&mut buf, 3, &mut input);
    assert_eq!(result, Ok(Some(Token::Identifier("abc".into()))));
    assert_eq!(input.peek(), Some(' '));
}

#[test]
fn identifier_acceptable_chars() {
    let a = IdentifierAutomaton::new();
    assert!(a.acceptable('a') && a.acceptable('Z') && a.acceptable('_'));
    assert!(!a.acceptable('1') && !a.acceptable('é') && !a.acceptable(' '));
}
