//! The token model: the closed set of lexical categories and the literal
//! text captured for each token occurrence.

use vstd::prelude::*;
use vstd::string::StringExecFns;

verus! {

broadcast use vstd::string::group_string_axioms;

/// A lexical category. `ILLEGAL` marks an unrecognized character and `EOF`
/// the end of the input; the rest are identifiers, integer literals,
/// operators, delimiters and keywords.
#[derive(Debug, Clone, Copy, PartialEq, Eq, Structural)]
pub enum TokenType {
    ILLEGAL,
    EOF,
    IDENT,
    INT,
    ASSIGN,
    PLUS,
    MINUS,
    BANG,
    ASTERISK,
    SLASH,
    LT,
    GT,
    COMMA,
    SEMICOLON,
    LPAREN,
    RPAREN,
    LBRACE,
    RBRACE,
    FUNCTION,
    LET,
    TRUE,
    FALSE,
    IF,
    ELSE,
    RETURN,
    EQ,
    NEQ,
}

/// The mathematical value of a token: its category and the text it
/// captured.
pub ghost struct TokenModel {
    pub typ: TokenType,
    pub literal: Seq<char>,
}

/// The smallest lexical unit: a category together with the literal text
/// that produced it.
#[derive(Debug, PartialEq)]
pub struct Token {
    pub typ: TokenType,
    pub literal: String,
}

impl View for Token {
    type V = TokenModel;

    open spec fn view(&self) -> TokenModel {
        TokenModel { typ: self.typ, literal: self.literal@ }
    }
}

/// Relies on char::to_string: the returned string holds exactly the one
/// character it was made from.
#[verifier::external_body]
fn char_to_string(c: char) -> (r: String)
    ensures
        r@ == seq![c],
{
    c.to_string()
}

impl Clone for Token {
    /// A cloned token equals the original.
    fn clone(&self) -> (r: Self)
        ensures
            r == *self,
    {
        Token { typ: self.typ, literal: self.literal.clone() }
    }
}

impl Token {
    /// A token whose literal is the single character `ch`.
    pub fn new(typ: TokenType, ch: char) -> (t: Token)
        ensures
            t@ == (TokenModel { typ, literal: seq![ch] }),
    {
        Token { typ, literal: char_to_string(ch) }
    }
}

/// The keyword table: exactly `let`, `fn`, `true`, `false`, `if`, `else`
/// and `return` are keywords, case-sensitively; every other word is a
/// generic identifier.
pub open spec fn keyword_type(s: Seq<char>) -> TokenType {
    if s == "let"@ {
        TokenType::LET
    } else if s == "fn"@ {
        TokenType::FUNCTION
    } else if s == "true"@ {
        TokenType::TRUE
    } else if s == "false"@ {
        TokenType::FALSE
    } else if s == "if"@ {
        TokenType::IF
    } else if s == "else"@ {
        TokenType::ELSE
    } else if s == "return"@ {
        TokenType::RETURN
    } else {
        TokenType::IDENT
    }
}

/// The name of a token category, as diagnostics spell it.
pub open spec fn kind_name(t: TokenType) -> Seq<char> {
    match t {
        TokenType::ILLEGAL => "ILLEGAL"@,
        TokenType::EOF => "EOF"@,
        TokenType::IDENT => "IDENT"@,
        TokenType::INT => "INT"@,
        TokenType::ASSIGN => "ASSIGN"@,
        TokenType::PLUS => "PLUS"@,
        TokenType::MINUS => "MINUS"@,
        TokenType::BANG => "BANG"@,
        TokenType::ASTERISK => "ASTERISK"@,
        TokenType::SLASH => "SLASH"@,
        TokenType::LT => "LT"@,
        TokenType::GT => "GT"@,
        TokenType::COMMA => "COMMA"@,
        TokenType::SEMICOLON => "SEMICOLON"@,
        TokenType::LPAREN => "LPAREN"@,
        TokenType::RPAREN => "RPAREN"@,
        TokenType::LBRACE => "LBRACE"@,
        TokenType::RBRACE => "RBRACE"@,
        TokenType::FUNCTION => "FUNCTION"@,
        TokenType::LET => "LET"@,
        TokenType::TRUE => "TRUE"@,
        TokenType::FALSE => "FALSE"@,
        TokenType::IF => "IF"@,
        TokenType::ELSE => "ELSE"@,
        TokenType::RETURN => "RETURN"@,
        TokenType::EQ => "EQ"@,
        TokenType::NEQ => "NEQ"@,
    }
}

impl TokenType {
    /// Classify a scanned word: a keyword of the language, or a generic
    /// identifier.
    pub fn serialize(string: &String) -> (t: TokenType)
        ensures
            t == keyword_type(string@),
    {
        if *string == String::from_str("let") {
            TokenType::LET
        } else if *string == String::from_str("fn") {
            TokenType::FUNCTION
        } else if *string == String::from_str("true") {
            TokenType::TRUE
        } else if *string == String::from_str("false") {
            TokenType::FALSE
        } else if *string == String::from_str("if") {
            TokenType::IF
        } else if *string == String::from_str("else") {
            TokenType::ELSE
        } else if *string == String::from_str("return") {
            TokenType::RETURN
        } else {
            TokenType::IDENT
        }
    }

    /// The category's name, for diagnostics.
    pub fn name(&self) -> (r: String)
        ensures
            r@ == kind_name(*self),
    {
        match self {
            TokenType::ILLEGAL => "ILLEGAL".to_owned(),
            TokenType::EOF => "EOF".to_owned(),
            TokenType::IDENT => "IDENT".to_owned(),
            TokenType::INT => "INT".to_owned(),
            TokenType::ASSIGN => "ASSIGN".to_owned(),
            TokenType::PLUS => "PLUS".to_owned(),
            TokenType::MINUS => "MINUS".to_owned(),
            TokenType::BANG => "BANG".to_owned(),
            TokenType::ASTERISK => "ASTERISK".to_owned(),
            TokenType::SLASH => "SLASH".to_owned(),
            TokenType::LT => "LT".to_owned(),
            TokenType::GT => "GT".to_owned(),
            TokenType::COMMA => "COMMA".to_owned(),
            TokenType::SEMICOLON => "SEMICOLON".to_owned(),
            TokenType::LPAREN => "LPAREN".to_owned(),
            TokenType::RPAREN => "RPAREN".to_owned(),
            TokenType::LBRACE => "LBRACE".to_owned(),
            TokenType::RBRACE => "RBRACE".to_owned(),
            TokenType::FUNCTION => "FUNCTION".to_owned(),
            TokenType::LET => "LET".to_owned(),
            TokenType::TRUE => "TRUE".to_owned(),
            TokenType::FALSE => "FALSE".to_owned(),
            TokenType::IF => "IF".to_owned(),
            TokenType::ELSE => "ELSE".to_owned(),
            TokenType::RETURN => "RETURN".to_owned(),
            TokenType::EQ => "EQ".to_owned(),
            TokenType::NEQ => "NEQ".to_owned(),
        }
    }
}

/// The keyword table recognizes exactly the seven keywords, each by its
/// exact spelling, and classifies every other word as an identifier.
pub proof fn lemma_keyword_classification(s: Seq<char>)
    ensures
        keyword_type(s) == TokenType::LET <==> s == "let"@,
        keyword_type(s) == TokenType::FUNCTION <==> s == "fn"@,
        keyword_type(s) == TokenType::TRUE <==> s == "true"@,
        keyword_type(s) == TokenType::FALSE <==> s == "false"@,
        keyword_type(s) == TokenType::IF <==> s == "if"@,
        keyword_type(s) == TokenType::ELSE <==> s == "else"@,
        keyword_type(s) == TokenType::RETURN <==> s == "return"@,
        keyword_type(s) == TokenType::IDENT <==> (s != "let"@ && s != "fn"@ && s != "true"@
            && s != "false"@ && s != "if"@ && s != "else"@ && s != "return"@),
{
    reveal_strlit("let");
    reveal_strlit("fn");
    reveal_strlit("true");
    reveal_strlit("false");
    reveal_strlit("if");
    reveal_strlit("else");
    reveal_strlit("return");
    assert("let"@.len() == 3);
    assert("fn"@.len() == 2);
    assert("true"@.len() == 4);
    assert("false"@.len() == 5);
    assert("if"@.len() == 2);
    assert("else"@.len() == 4);
    assert("return"@.len() == 6);
    assert("fn"@[0] == 'f' && "if"@[0] == 'i');
    assert("true"@[0] == 't' && "else"@[0] == 'e');
}

} // verus!
