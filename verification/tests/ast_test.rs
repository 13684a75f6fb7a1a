use mono::ast::{ExpressionVariants, Identifier, LetStatement, Node, Program, StatementVariant};
use mono::token::{Token, TokenType};

#[test]
fn test_string() {
    let program = Program {
        statements: vec![StatementVariant::Let(LetStatement {
            token: Token {
                typ: TokenType::LET,
                literal: "let".to_string(),
            },
            name: Identifier {
                token: Token {
                    typ: TokenType::IDENT,
                    literal: "myVar".to_string(),
                },
                value: "myVar".to_string(),
            },
            value: Some(ExpressionVariants::Ident(Identifier {
                token: Token {
                    typ: TokenType::IDENT,
                    literal: "anotherVar".to_string(),
                },
                value: "anotherVar".to_string(),
            })),
        })],
    };

    if program.string() != "let myVar = anotherVar;" {
        panic!(
            "Found: {} expected let myVar = anotherVar;",
            program.string()
        );
    }
}

#[test]
fn ast_test_test_string() {
    let program = Program {
        statements: vec![StatementVariant::Let(LetStatement {
            token: Token {
                typ: TokenType::LET,
                literal: "let".to_string(),
            },
            name: Identifier {
                token: Token {
                    typ: TokenType::IDENT,
                    literal: "myVar".to_string(),
                },
                value: "myVar".to_string(),
            },
            value: Some(ExpressionVariants::Ident(Identifier {
                token: Token {
                    typ: TokenType::IDENT,
                    literal: "anotherVar".to_string(),
                },
                value: "anotherVar".to_string(),
            })),
        })],
    };

    if program.string() != "let myVar = anotherVar;" {
        panic!("Found: {} expected let myVar =;", program.string());
    }
}

#[test]
fn empty_program_renders_to_nothing() {
    let program = Program { statements: vec![] };
    assert_eq!(program.string(), "");
    assert_eq!(program.token_literal(), " ");
}

#[test]
fn let_statement_token_literal_is_let() {
    let statement = StatementVariant::Let(LetStatement {
        token: Token {
            typ: TokenType::LET,
            literal: "let".to_string(),
        },
        name: Identifier {
            token: Token {
                typ: TokenType::IDENT,
                literal: "x".to_string(),
            },
            value: "x".to_string(),
        },
        value: None,
    });
    assert_eq!(statement.token_literal(), "let");
    assert_eq!(statement.string(), "let x = ;");
}
