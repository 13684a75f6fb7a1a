//! Front end of a small scripting language: a lexer that turns source text
//! into tokens, a syntax-tree data model that renders itself back to
//! canonical text, and a recursive-descent parser with precedence climbing
//! for expressions.

pub mod ast;
pub mod lexer;
pub mod parser;
pub mod token;
