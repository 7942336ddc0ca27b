use iake::ast::{
    AssignStatement, BinaryOperator, DeclStatement, Expression, Program, Statement,
};
use iake::input::Cursor;
use iake::input::file_input::FileInput;
use iake::parser::Parser;
use iake::parser::result::Error as ParserError;
use iake::token::{KeywordToken, Token};

fn parser(input: &str) -> Parser<FileInput> {
    Parser::new(FileInput::from_chars(input.chars().collect()))
}

fn parse(input: &str) -> Program {
    parser(input).parse_program().expect("parser should succeed")
}

#[test]
fn parses_decl_stm() {
    let program = parse("i32 a = 1;");

    assert_eq!(
        program,
        Program {
            stms: vec![Statement::Decl(DeclStatement {
                name: "a".into(),
                init: Expression::Integer { value: 1 },
            })],
        }
    );
}

#[test]
fn parses_arith_precedence() {
    let program = parse("a = b + c * 2;");

    assert_eq!(
        program,
        Program {
            stms: vec![Statement::Assign(AssignStatement {
                name: "a".into(),
                value: Expression::Binary {
                    oper: BinaryOperator::Add,
                    left: Box::new(Expression::Identifier { name: "b".into() }),
                    right: Box::new(Expression::Binary {
                        oper: BinaryOperator::Mul,
                        left: Box::new(Expression::Identifier { name: "c".into() }),
                        right: Box::new(Expression::Integer { value: 2 }),
                    }),
                },
            })],
        }
    );
}

#[test]
fn parses_nested_control_flow() {
    let program = parse("if (a == 1) { while (b < 10) { b = b * 2; } } else { a = b; }");

    assert!(matches!(program.stms.as_slice(), [Statement::If(_)]));

    let Statement::If(if_stm) = &program.stms[0] else {
        unreachable!()
    };

    assert!(matches!(
        if_stm.cond,
        Expression::Binary {
            oper: BinaryOperator::Equal,
            ..
        }
    ));
    assert!(matches!(
        if_stm.then_block.stms.as_slice(),
        [Statement::While(_)]
    ));
    assert!(if_stm.else_block.is_some());
}

#[test]
fn rejects_missing_semicolon() {
    let err = parser("a = 1")
        .parse_program()
        .expect_err("parser should fail");

    assert!(matches!(err, ParserError::UnexpectedEndOfInput { .. }));
}

#[test]
fn rejects_missing_right_paren_in_if() {
    let err = parser("if (a == 1 { a = 1; }")
        .parse_program()
        .expect_err("parser should fail");

    assert!(matches!(
        err,
        ParserError::UnexpectedToken { .. } | ParserError::UnexpectedEndOfInput { .. }
    ));
}

#[test]
fn rejects_missing_right_brace() {
    let err = parser("while (a < 1) { a = a + 1;")
        .parse_program()
        .expect_err("parser should fail");

    assert!(matches!(err, ParserError::UnexpectedEndOfInput { .. }));
}

#[test]
fn rejects_if_without_left_paren() {
    let err = parser("if a == 1) { a = 1; }")
        .parse_program()
        .expect_err("parser should fail");

    assert!(matches!(err, ParserError::UnexpectedToken { .. }));
}

#[test]
fn rejects_empty_assignment_value() {
    let err = parser("a = ;")
        .parse_program()
        .expect_err("parser should fail");

    assert!(matches!(err, ParserError::UnexpectedToken { .. }));
}

#[test]
fn rejects_bool_expr_without_rel_op() {
    let err = parser("while (a) { a = 1; }")
        .parse_program()
        .expect_err("parser should fail");

    assert!(matches!(err, ParserError::UnexpectedToken { .. }));
}

#[test]
fn wraps_lexer_error_with_cursor() {
    let err = parser("a = @;")
        .parse_program()
        .expect_err("parser should fail");

    assert!(matches!(
        err,
        ParserError::Lex {
            err: iake::lexer::result::Error::InvalidChar('@'),
            ..
        }
    ));
}

#[test]
fn error_messages_and_cursors() {
    let err = parser("i32 a = 1\ni32 b = 2;").parse_program().unwrap_err();
    assert_eq!(
        err,
        ParserError::UnexpectedToken {
            expected: "`;`".into(),
            found: Token::Keyword(KeywordToken::I32),
            cursor: Cursor { line: 1, column: 3 },
        }
    );
    let err = parser("while (a < 1) {\n a = 2;\n").parse_program().unwrap_err();
    assert_eq!(
        err,
        ParserError::UnexpectedEndOfInput {
            expected: "`}`".into(),
            cursor: Cursor { line: 2, column: 0 },
        }
    );
    let err = parser("i32 a = 1;\n a = @1;").parse_program().unwrap_err();
    assert_eq!(
        err,
        ParserError::Lex {
            err: iake::lexer::result::Error::InvalidChar('@'),
            cursor: Cursor { line: 1, column: 5 },
        }
    );
}

#[test]
fn trailing_tokens_are_rejected() {
    let err = parser("a = 1; )").parse_program().unwrap_err();
    assert_eq!(
        err,
        ParserError::UnexpectedToken {
            expected: "end of input".into(),
            found: Token::Punctuation(iake::token::PunctuationToken::ParenRight),
            cursor: Cursor { line: 0, column: 8 },
        }
    );
    let err = parser("else { }").parse_program().unwrap_err();
    assert!(matches!(err, ParserError::UnexpectedToken { expected, .. } if expected == "end of input"));
}

#[test]
fn operators_fold_to_the_left() {
    let program = parse("x = a + b + c * d * e;");
    let expected = Expression::Binary {
        oper: BinaryOperator::Add,
        left: Box::new(Expression::Binary {
            oper: BinaryOperator::Add,
            left: Box::new(Expression::Identifier { name: "a".into() }),
            right: Box::new(Expression::Identifier { name: "b".into() }),
        }),
        right: Box::new(Expression::Binary {
            oper: BinaryOperator::Mul,
            left: Box::new(Expression::Binary {
                oper: BinaryOperator::Mul,
                left: Box::new(Expression::Identifier { name: "c".into() }),
                right: Box::new(Expression::Identifier { name: "d".into() }),
            }),
            right: Box::new(Expression::Identifier { name: "e".into() }),
        }),
    };
    assert_eq!(
        program,
        Program {
            stms: vec![Statement::Assign(AssignStatement { name: "x".into(), value: expected })]
        }
    );
}

#[test]
fn parentheses_group_and_vanish() {
    assert_eq!(parse("x = (a + b) * 2;").stms.len(), 1);
    let p1 = parse("x = ((a));");
    assert_eq!(p1, parse("x = a;"));
}

#[test]
fn empty_program_parses() {
    assert_eq!(parse("  # nothing\n"), Program { stms: vec![] });
}

#[test]
fn other_messages() {
    let err = parser("while (a = 1) { }").parse_program().unwrap_err();
    assert!(matches!(err, ParserError::UnexpectedToken { expected, .. } if expected == "`==` or `<`"));
    let err = parser("a = ;").parse_program().unwrap_err();
    assert!(matches!(err, ParserError::UnexpectedToken { expected, .. } if expected == "identifier, integer, or `(`"));
    let err = parser("i32 = 1;").parse_program().unwrap_err();
    assert!(matches!(err, ParserError::UnexpectedToken { expected, .. } if expected == "identifier"));
    let err = parser("if (a < 1) x = 1;").parse_program().unwrap_err();
    assert!(matches!(err, ParserError::UnexpectedToken { expected, .. } if expected == "`{`"));
}

#[test]
fn accepts_a_sentence_using_every_production() {
    let program = parse(
        "i32 a = (1 + b) * 2 + c;\nif (a < 3) { } else { while (a == a * 1) { a = a; } }\nif (x == y) { z = 0; }",
    );
    assert_eq!(program.stms.len(), 3);
    assert_eq!(
        program.preorder_string(),
        [
            "Program",
            "├── DeclStatement(a)",
            "│   └── Add",
            "│       ├── Mul",
            "│       │   ├── Add",
            "│       │   │   ├── Integer(1)",
            "│       │   │   └── Identifier(b)",
            "│       │   └── Integer(2)",
            "│       └── Identifier(c)",
            "├── IfStatement",
            "│   ├── Condition",
            "│   │   └── Less",
            "│   │       ├── Identifier(a)",
            "│   │       └── Integer(3)",
            "│   ├── ThenBlock",
            "│   │   └── Empty",
            "│   └── ElseBlock",
            "│       └── WhileStatement",
            "│           ├── Condition",
            "│           │   └── Equal",
            "│           │       ├── Identifier(a)",
            "│           │       └── Mul",
            "│           │           ├── Identifier(a)",
            "│           │           └── Integer(1)",
            "│           └── Body",
            "│               └── AssignStatement(a)",
            "│                   └── Identifier(a)",
            "└── IfStatement",
            "    ├── Condition",
            "    │   └── Equal",
            "    │       ├── Identifier(x)",
            "    │       └── Identifier(y)",
            "    └── ThenBlock",
            "        └── AssignStatement(z)",
            "            └── Integer(0)",
        ]
        .join("\n")
    );
}
