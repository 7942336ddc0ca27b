use iake::text::{char_is_whitespace, push_int};

#[test]
fn whitespace_matches_unicode_white_space() {
    for c in (0u32..=0x10FFFF).filter_map(char::from_u32) {
        assert_eq!(char_is_whitespace(c), c.is_whitespace(), "{:?}", c);
    }
}

#[test]
fn prints_integers_in_decimal() {
    for v in [0i64, 7, 10, 99, 100, -1, -10, i64::MAX, i64::MIN, 1234567890] {
        let mut s = String::new();
        push_int(&mut s, v);
        assert_eq!(s, v.to_string());
    }
}

#[test]
fn decimal_text_reads_back() {
    for v in [0i64, 5, 10, 4096, i64::MAX] {
        let digits: Vec<char> = v.to_string().chars().collect();
        assert_eq!(iake::lexer::automaton::integer::IntegerAutomaton::to_integer(&digits), Some(v));
    }
}
