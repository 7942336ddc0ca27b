use iake::input::Input;
use iake::input::file_input::FileInput;
use iake::lexer::automaton::Automaton;
use iake::lexer::automaton::integer::IntegerAutomaton;
use iake::lexer::result::{Error as LexerError, LexerResult};
use iake::token::Token;

fn try_accept(input: &str, mut automaton: IntegerAutomaton) -> (LexerResult, FileInput) {
    let mut buf = ['\0'; 1024];
    let mut input = FileInput::from_chars(input.chars().collect());
    let result = automaton.try_accept(&mut buf, 1024, &mut input);
    (result, input)
}

#[test]
fn accepts_positive_integer() {
    let (result, _) = try_accept("123", IntegerAutomaton::default());
    assert_eq!(result, Ok(Some(Token::Integer(123))));
}

#[test]
fn accepts_zero() {
    let (result, _) = try_accept("0", IntegerAutomaton::default());
    assert_eq!(result, Ok(Some(Token::Integer(0))));
}

#[test]
fn rejects_integer_with_leading_zero() {
    let (result, _input) = try_accept("0123", IntegerAutomaton::default());
    assert!(matches!(result, Err(LexerError::UnexpectedChar('1'))));
}

#[test]
fn rejects_non_digit_at_start() {
    let (result, _) = try_accept("abc", IntegerAutomaton::default());
    assert!(matches!(result, Err(LexerError::UnexpectedChar('a'))));
}

#[test]
fn integer_accepts_empty_input_as_eof() {
    let (result, _) = try_accept("", IntegerAutomaton::default());
    assert_eq!(result, Ok(None));
}

#[test]
fn stops_before_first_non_digit() {
    let (result, input) = try_accept("123abc", IntegerAutomaton::default());
    assert_eq!(result, Ok(Some(Token::Integer(123))));
    assert_eq!(input.peek(), Some('a'));
}

#[test]
fn zero_followed_by_non_digit() {
    let (result, input) = try_accept("0;", IntegerAutomaton::default());
    assert_eq!(result, Ok(Some(Token::Integer(0))));
    assert_eq!(input.peek(), Some(';'));
}

#[test]
fn to_integer_reads_decimal() {
    assert_eq!(IntegerAutomaton::to_integer(&['4', '2']), Some(42));
    assert_eq!(IntegerAutomaton::to_integer(&[]), Some(0));
    assert_eq!(IntegerAutomaton::to_integer(&['4', 'x']), None);
    let max: Vec<char> = "9223372036854775807".chars().collect();
    assert_eq!(IntegerAutomaton::to_integer(&max), Some(i64::MAX));
    let over: Vec<char> = "9223372036854775808".chars().collect();
    assert_eq!(IntegerAutomaton::to_integer(&over), None);
    let huge: Vec<char> = "92233720368547758070".chars().collect();
    assert_eq!(IntegerAutomaton::to_integer(&huge), None);
}

#[test]
fn integer_limit_of_zero_rejects_everything() {
    let mut buf = ['\0'; 1];
    let mut input = FileInput::from_chars("7".chars().collect());
    let result = IntegerAutomaton::default().try_accept(&mut buf, 0, &mut input);
    assert_eq!(result, Err(LexerError::TokenTooLong(String::new())));
    assert_eq!(input.peek(), Some('7'));
}
