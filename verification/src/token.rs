//! The token alphabet produced by the lexer and consumed by the parser.
use vstd::prelude::*;

verus! {

#[derive(Debug, PartialEq)]
pub enum Token {
    // Keywords
    Resource,
    String,
    Number,
    Bool,
    Nullable,
    Optional,
    Default,
    List,
    True,
    False,
    // Identifiers and literals
    Identifier(std::string::String),
    StringLiteral(std::string::String),
    NumberLiteral(i64),
    // Symbols
    LeftBrace,
    RightBrace,
    LeftParen,
    RightParen,
    // End of input
    Eof,
}

impl Clone for Token {
    fn clone(&self) -> (res: Self)
        ensures
            res == *self,
    {
        match self {
            Token::Resource => Token::Resource,
            Token::String => Token::String,
            Token::Number => Token::Number,
            Token::Bool => Token::Bool,
            Token::Nullable => Token::Nullable,
            Token::Optional => Token::Optional,
            Token::Default => Token::Default,
            Token::List => Token::List,
            Token::True => Token::True,
            Token::False => Token::False,
            Token::Identifier(s) => Token::Identifier(s.clone()),
            Token::StringLiteral(s) => Token::StringLiteral(s.clone()),
            Token::NumberLiteral(n) => Token::NumberLiteral(*n),
            Token::LeftBrace => Token::LeftBrace,
            Token::RightBrace => Token::RightBrace,
            Token::LeftParen => Token::LeftParen,
            Token::RightParen => Token::RightParen,
            Token::Eof => Token::Eof,
        }
    }
}

} // verus!
