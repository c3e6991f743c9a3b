use vstd::prelude::*;

verus! {

/// The category of a lexed token, with the value it carries.
#[derive(Debug, Clone, PartialEq)]
pub enum TokenType {
    /// A numeric literal, held as the IEEE-754 binary64 bit pattern of its value.
    Number(u64),
    /// A string literal, without its quotes.
    Str(String),
    Identifier(String),
    Operator(String),
    Keyword(String),
    LeftParen,
    RightParen,
    LeftBrace,
    RightBrace,
    Comma,
    Semicolon,
}

/// A lexed token and the source line it was read from.
#[derive(Debug, Clone, PartialEq)]
pub struct Token {
    pub token_type: TokenType,
    pub line: usize,
}

impl Token {
    pub fn new(token_type: TokenType, line: usize) -> (r: Token)
        ensures
            r.token_type == token_type,
            r.line == line,
    {
        Token { token_type, line }
    }
}

} // verus!
