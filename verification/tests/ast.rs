use iake::ast::{
    BinaryOperator, Block, DeclStatement, Expression, IfStatement, Program, Statement,
    WhileStatement, AssignStatement,
};

#[test]
fn prints_preorder_tree() {
    let program = Program {
        stms: vec![Statement::Decl(DeclStatement {
            name: "a".into(),
            init: Expression::Binary {
                oper: BinaryOperator::Add,
                left: Box::new(Expression::Integer { value: 1 }),
                right: Box::new(Expression::Identifier { name: "b".into() }),
            },
        })],
    };

    assert_eq!(
        program.preorder_string(),
        "Program\n└── DeclStatement(a)\n    └── Add\n        ├── Integer(1)\n        └── Identifier(b)"
    );
}

#[test]
fn prints_control_flow_tree() {
    let program = Program {
        stms: vec![
            Statement::If(IfStatement {
                cond: Expression::Binary {
                    oper: BinaryOperator::Less,
                    left: Box::new(Expression::Identifier { name: "a".into() }),
                    right: Box::new(Expression::Integer { value: -3 }),
                },
                then_block: Block { stms: vec![] },
                else_block: Some(Block {
                    stms: vec![Statement::Assign(AssignStatement {
                        name: "a".into(),
                        value: Expression::Integer { value: 0 },
                    })],
                }),
            }),
            Statement::While(WhileStatement {
                cond: Expression::Binary {
                    oper: BinaryOperator::Equal,
                    left: Box::new(Expression::Identifier { name: "b".into() }),
                    right: Box::new(Expression::Integer { value: 10 }),
                },
                body: Block { stms: vec![] },
            }),
        ],
    };
    let expected = [
        "Program",
        "├── IfStatement",
        "│   ├── Condition",
        "│   │   └── Less",
        "│   │       ├── Identifier(a)",
        "│   │       └── Integer(-3)",
        "│   ├── ThenBlock",
        "│   │   └── Empty",
        "│   └── ElseBlock",
        "│       └── AssignStatement(a)",
        "│           └── Integer(0)",
        "└── WhileStatement",
        "    ├── Condition",
        "    │   └── Equal",
        "    │       ├── Identifier(b)",
        "    │       └── Integer(10)",
        "    └── Body",
        "        └── Empty",
    ]
    .join("\n");
    assert_eq!(program.preorder_string(), expected);
}

#[test]
fn empty_program_prints_root_only() {
    assert_eq!(Program { stms: vec![] }.preorder_string(), "Program");
}

#[test]
fn if_without_else_ends_with_then_block() {
    let program = Program {
        stms: vec![Statement::If(IfStatement {
            cond: Expression::Integer { value: i64::MIN },
            then_block: Block { stms: vec![] },
            else_block: None,
        })],
    };
    assert_eq!(
        program.preorder_string(),
        "Program\n└── IfStatement\n    ├── Condition\n    │   └── Integer(-9223372036854775808)\n    └── ThenBlock\n        └── Empty"
    );
}
