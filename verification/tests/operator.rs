use iake::input::Input;
use iake::input::file_input::FileInput;
use iake::lexer::automaton::Automaton;
use iake::lexer::automaton::operator::OperatorAutomaton;
use iake::lexer::result::{Error as LexerError, LexerResult};
use iake::token::{OperatorToken, Token};

fn try_accept(input: &str, mut automaton: OperatorAutomaton) -> (LexerResult, FileInput) {
    let mut buf = ['\0'; 1024];
    let mut input = FileInput::from_chars(input.chars().collect());
    let result = automaton.try_accept(&mut buf, 1024, &mut input);
    (result, input)
}

#[test]
fn accepts_single_equal() {
    let (result, input) = try_accept("=", OperatorAutomaton::default());
    assert_eq!(result, Ok(Some(Token::Operator(OperatorToken::Assign))));
    assert_eq!(input.peek(), None);
}

#[test]
fn accepts_double_equal() {
    let (result, input) = try_accept("==", OperatorAutomaton::default());
    assert_eq!(result, Ok(Some(Token::Operator(OperatorToken::Equal))));
    assert_eq!(input.peek(), None);
}

#[test]
fn greedy_stops_before_third_equal() {
    let (result, input) = try_accept("===", OperatorAutomaton::default());
    assert_eq!(result, Ok(Some(Token::Operator(OperatorToken::Equal))));
    assert_eq!(input.peek(), Some('='));
}

#[test]
fn stops_before_digit() {
    let (result, input) = try_accept("=1", OperatorAutomaton::default());
    assert_eq!(result, Ok(Some(Token::Operator(OperatorToken::Assign))));
    assert_eq!(input.peek(), Some('1'));
}

#[test]
fn rejects_non_operator_start() {
    let (result, _) = try_accept("a", OperatorAutomaton::default());
    assert!(matches!(result, Err(LexerError::UnexpectedChar('a'))));
}

#[test]
fn operator_accepts_empty_input_as_eof() {
    let (result, _) = try_accept("", OperatorAutomaton::default());
    assert_eq!(result, Ok(None));
}

#[test]
fn accepts_asterisk() {
    let (result, input) = try_accept("*", OperatorAutomaton::default());
    assert_eq!(result, Ok(Some(Token::Operator(OperatorToken::Mul))));
    assert_eq!(input.peek(), None);
}

#[test]
fn asterisk_stops_before_digit() {
    let (result, input) = try_accept("*1", OperatorAutomaton::default());
    assert_eq!(result, Ok(Some(Token::Operator(OperatorToken::Mul))));
    assert_eq!(input.peek(), Some('1'));
}

#[test]
fn asterisk_not_greedy() {
    let (result, input) = try_accept("**", OperatorAutomaton::default());
    assert_eq!(result, Ok(Some(Token::Operator(OperatorToken::Mul))));
    assert_eq!(input.peek(), Some('*'));
}

#[test]
fn accepts_less_than() {
    let (result, input) = try_accept("<", OperatorAutomaton::default());
    assert_eq!(result, Ok(Some(Token::Operator(OperatorToken::Less))));
    assert_eq!(input.peek(), None);
}

#[test]
fn accepts_plus() {
    let (result, input) = try_accept("+", OperatorAutomaton::default());
    assert_eq!(result, Ok(Some(Token::Operator(OperatorToken::Add))));
    assert_eq!(input.peek(), None);
}

#[test]
fn double_equal_fits_a_limit_of_two() {
    let mut buf = ['\0'; 2];
    let mut input = FileInput::from_chars("==;".chars().collect());
    let result = OperatorAutomaton::default().try_accept(&mut buf, 2, &mut input);
    assert_eq!(result, Ok(Some(Token::Operator(OperatorToken::Equal))));
    assert_eq!(input.peek(), Some(';'));
    let mut input = FileInput::from_chars("==".chars().collect());
    let result = OperatorAutomaton::default().try_accept(&mut buf, 1, &mut input);
    assert_eq!(result, Err(LexerError::TokenTooLong("=".into())));
    assert_eq!(input.peek(), Some('='));
    let mut input = FileInput::from_chars("=;".chars().collect());
    let result = OperatorAutomaton::default().try_accept(&mut buf, 1, &mut input);
    assert_eq!(result, Ok(Some(Token::Operator(OperatorToken::Assign))));
}
