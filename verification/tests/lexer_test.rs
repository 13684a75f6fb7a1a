use mono::lexer::Lexer;
use mono::token::TokenType;

#[derive(Debug)]
struct TestType {
    expected_type: TokenType,
    expected_literal: String,
}

impl TestType {
    fn new(expected_type: TokenType, expected_literal: &str) -> Self {
        Self {
            expected_type,
            expected_literal: expected_literal.to_string(),
        }
    }
}

fn run_token_test(input: &str, tests: Vec<TestType>) {
    let mut lexer = Lexer::new(input);

    for test in tests {
        let token = lexer.next_token();

        if token.typ != test.expected_type {
            panic!(
                "Wrong token type, expected {:?} but got {:?}",
                test.expected_type, token.typ
            )
        }

        if token.literal != test.expected_literal {
            panic!(
                "Wrong literal, expected {} but got {}",
                test.expected_literal, token.literal
            )
        }
    }
}

fn full_program_tokens() -> Vec<TestType> {
    vec![
        TestType::new(TokenType::LET, "let"),
        TestType::new(TokenType::IDENT, "testing"),
        TestType::new(TokenType::ASSIGN, "="),
        TestType::new(TokenType::INT, "5"),
        TestType::new(TokenType::SEMICOLON, ";"),
        TestType::new(TokenType::LET, "let"),
        TestType::new(TokenType::IDENT, "add"),
        TestType::new(TokenType::ASSIGN, "="),
        TestType::new(TokenType::FUNCTION, "fn"),
        TestType::new(TokenType::LPAREN, "("),
        TestType::new(TokenType::IDENT, "x"),
        TestType::new(TokenType::COMMA, ","),
        TestType::new(TokenType::IDENT, "y"),
        TestType::new(TokenType::RPAREN, ")"),
        TestType::new(TokenType::LBRACE, "{"),
        TestType::new(TokenType::IDENT, "x"),
        TestType::new(TokenType::PLUS, "+"),
        TestType::new(TokenType::IDENT, "y"),
        TestType::new(TokenType::SEMICOLON, ";"),
        TestType::new(TokenType::RBRACE, "}"),
        TestType::new(TokenType::SEMICOLON, ";"),
        TestType::new(TokenType::BANG, "!"),
        TestType::new(TokenType::MINUS, "-"),
        TestType::new(TokenType::SLASH, "/"),
        TestType::new(TokenType::ASTERISK, "*"),
        TestType::new(TokenType::INT, "5"),
        TestType::new(TokenType::SEMICOLON, ";"),
        TestType::new(TokenType::INT, "5"),
        TestType::new(TokenType::LT, "<"),
        TestType::new(TokenType::INT, "10"),
        TestType::new(TokenType::GT, ">"),
        TestType::new(TokenType::INT, "5"),
        TestType::new(TokenType::SEMICOLON, ";"),
        TestType::new(TokenType::IF, "if"),
        TestType::new(TokenType::LPAREN, "("),
        TestType::new(TokenType::INT, "5"),
        TestType::new(TokenType::LT, "<"),
        TestType::new(TokenType::INT, "10"),
        TestType::new(TokenType::RPAREN, ")"),
        TestType::new(TokenType::LBRACE, "{"),
        TestType::new(TokenType::RETURN, "return"),
        TestType::new(TokenType::TRUE, "true"),
        TestType::new(TokenType::SEMICOLON, ";"),
        TestType::new(TokenType::RBRACE, "}"),
        TestType::new(TokenType::ELSE, "else"),
        TestType::new(TokenType::LBRACE, "{"),
        TestType::new(TokenType::RETURN, "return"),
        TestType::new(TokenType::FALSE, "false"),
        TestType::new(TokenType::SEMICOLON, ";"),
        TestType::new(TokenType::RBRACE, "}"),
        TestType::new(TokenType::SEMICOLON, ";"),
        TestType::new(TokenType::INT, "10"),
        TestType::new(TokenType::EQ, "=="),
        TestType::new(TokenType::INT, "10"),
        TestType::new(TokenType::SEMICOLON, ";"),
        TestType::new(TokenType::INT, "10"),
        TestType::new(TokenType::NEQ, "!="),
        TestType::new(TokenType::INT, "9"),
        TestType::new(TokenType::EOF, " "),
    ]
}

const FULL_PROGRAM: &str = "let testing = 5;
        let add = fn(x,y) {
            x + y;
        };

        !-/*5;

        5 < 10 > 5;

        if (5 < 10) {
            return true;
        } else {
            return false;
        };

        10 == 10;
        10 != 9";

#[test]
fn test_next_token() {
    let input = FULL_PROGRAM.to_string();
    run_token_test(&input, full_program_tokens());
}

#[test]
fn lexer_test_test_next_token() {
    run_token_test(FULL_PROGRAM, full_program_tokens());
}

#[test]
fn single_character_operators_tokenize_alone() {
    let cases: Vec<(char, TokenType)> = vec![
        (';', TokenType::SEMICOLON),
        ('(', TokenType::LPAREN),
        (')', TokenType::RPAREN),
        (',', TokenType::COMMA),
        ('+', TokenType::PLUS),
        ('-', TokenType::MINUS),
        ('/', TokenType::SLASH),
        ('*', TokenType::ASTERISK),
        ('<', TokenType::LT),
        ('>', TokenType::GT),
        ('{', TokenType::LBRACE),
        ('}', TokenType::RBRACE),
    ];
    for (ch, expected) in cases {
        let input = ch.to_string();
        let mut lexer = Lexer::new(&input);
        let token = lexer.next_token();
        assert_eq!(token.typ, expected);
        assert_eq!(token.literal, input);
        let after = lexer.next_token();
        assert_eq!(after.typ, TokenType::EOF);
    }
}

#[test]
fn lookahead_merges_equality_operators() {
    let mut lexer = Lexer::new("==");
    let token = lexer.next_token();
    assert_eq!(token.typ, TokenType::EQ);
    assert_eq!(token.literal, "==");
    assert_eq!(lexer.next_token().typ, TokenType::EOF);

    let mut lexer = Lexer::new("!=");
    let token = lexer.next_token();
    assert_eq!(token.typ, TokenType::NEQ);
    assert_eq!(token.literal, "!=");
    assert_eq!(lexer.next_token().typ, TokenType::EOF);
}

#[test]
fn assignment_does_not_consume_the_next_token() {
    let mut lexer = Lexer::new("=x");
    let first = lexer.next_token();
    assert_eq!(first.typ, TokenType::ASSIGN);
    assert_eq!(first.literal, "=");
    let second = lexer.next_token();
    assert_eq!(second.typ, TokenType::IDENT);
    assert_eq!(second.literal, "x");
    assert_eq!(lexer.next_token().typ, TokenType::EOF);
}

#[test]
fn keyword_table_is_exact_and_case_sensitive() {
    let keywords: Vec<(&str, TokenType)> = vec![
        ("let", TokenType::LET),
        ("fn", TokenType::FUNCTION),
        ("true", TokenType::TRUE),
        ("false", TokenType::FALSE),
        ("if", TokenType::IF),
        ("else", TokenType::ELSE),
        ("return", TokenType::RETURN),
    ];
    for (word, expected) in keywords {
        assert_eq!(TokenType::serialize(&word.to_string()), expected);
    }
    let identifiers = vec!["Let", "LET", "letx", "fnord", "True", "returns", "foo", "_"];
    for word in identifiers {
        assert_eq!(TokenType::serialize(&word.to_string()), TokenType::IDENT);
    }
}

#[test]
fn end_of_file_token_repeats_forever() {
    let mut lexer = Lexer::new("x");
    assert_eq!(lexer.next_token().typ, TokenType::IDENT);
    for _ in 0..5 {
        let token = lexer.next_token();
        assert_eq!(token.typ, TokenType::EOF);
        assert_eq!(token.literal, " ");
    }

    let mut empty = Lexer::new("");
    for _ in 0..3 {
        assert_eq!(empty.next_token().typ, TokenType::EOF);
    }
}

#[test]
fn unrecognized_characters_yield_illegal_tokens() {
    let mut lexer = Lexer::new("@ #");
    let first = lexer.next_token();
    assert_eq!(first.typ, TokenType::ILLEGAL);
    assert_eq!(first.literal, "@");
    let second = lexer.next_token();
    assert_eq!(second.typ, TokenType::ILLEGAL);
    assert_eq!(second.literal, "#");
    assert_eq!(lexer.next_token().typ, TokenType::EOF);
}

#[test]
fn whitespace_between_tokens_is_skipped() {
    let mut lexer = Lexer::new(" \t\r\n  alpha \n 42 ");
    let first = lexer.next_token();
    assert_eq!(first.typ, TokenType::IDENT);
    assert_eq!(first.literal, "alpha");
    let second = lexer.next_token();
    assert_eq!(second.typ, TokenType::INT);
    assert_eq!(second.literal, "42");
    assert_eq!(lexer.next_token().typ, TokenType::EOF);
}
