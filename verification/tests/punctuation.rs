use iake::input::Input;
use iake::input::file_input::FileInput;
use iake::lexer::automaton::Automaton;
use iake::lexer::automaton::punctuation::PunctuationAutomaton;
use iake::lexer::result::{Error as LexerError, LexerResult};
use iake::token::{PunctuationToken, Token};

fn try_accept(input: &str, mut automaton: PunctuationAutomaton) -> (LexerResult, FileInput) {
    let mut buf = ['\0'; 1024];
    let mut input = FileInput::from_chars(input.chars().collect());
    let result = automaton.try_accept(&mut buf, 1024, &mut input);
    (result, input)
}

#[test]
fn accepts_semicolon() {
    let (result, _) = try_accept(";", PunctuationAutomaton::default());
    assert_eq!(result, Ok(Some(Token::Punctuation(PunctuationToken::Semicolon))));
}

#[test]
fn accepts_left_brace() {
    let (result, _) = try_accept("{", PunctuationAutomaton::default());
    assert_eq!(result, Ok(Some(Token::Punctuation(PunctuationToken::BraceLeft))));
}

#[test]
fn accepts_right_brace() {
    let (result, _) = try_accept("}", PunctuationAutomaton::default());
    assert_eq!(result, Ok(Some(Token::Punctuation(PunctuationToken::BraceRight))));
}

#[test]
fn accepts_left_paren() {
    let (result, _) = try_accept("(", PunctuationAutomaton::default());
    assert_eq!(result, Ok(Some(Token::Punctuation(PunctuationToken::ParenLeft))));
}

#[test]
fn accepts_right_paren() {
    let (result, _) = try_accept(")", PunctuationAutomaton::default());
    assert_eq!(result, Ok(Some(Token::Punctuation(PunctuationToken::ParenRight))));
}

#[test]
fn stops_before_second_paren() {
    let (result, input) = try_accept("((", PunctuationAutomaton::default());
    assert_eq!(result, Ok(Some(Token::Punctuation(PunctuationToken::ParenLeft))));
    assert_eq!(input.peek(), Some('('));
}

#[test]
fn rejects_non_punctuation() {
    let (result, input) = try_accept("a", PunctuationAutomaton::default());
    assert!(matches!(result, Err(LexerError::UnexpectedChar('a'))));
    assert_eq!(input.peek(), Some('a'));
}

#[test]
fn punctuation_accepts_empty_input_as_eof() {
    let (result, _) = try_accept("", PunctuationAutomaton::default());
    assert_eq!(result, Ok(None));
}
