use vstd::prelude::*;

verus! {

/// The kinds of lexical unit.
///
/// Comparison tokens are named after the right-hand operand: in `a < b` the
/// right side is greater, so `<` is `Greater`, `<=` is `GreaterEqual`, `>` is
/// `Less` and `>=` is `LessEqual`.
#[derive(PartialEq, Eq, Structural, Clone, Copy, Debug)]
pub enum TokenType {
    If,
    Let,
    Fn,
    Else,
    Return,
    Identifier,
    Number,
    String,
    Nil,
    Bool,
    Assign,
    Addition,
    Minus,
    Star,
    Division,
    Bang,
    BangEqual,
    EqualEqual,
    Greater,
    GreaterEqual,
    Less,
    LessEqual,
    SemiColon,
    Comma,
    LeftParen,
    RightParen,
    RightBrace,
    LeftBrace,
    EOF,
}

/// A lexical unit: its kind and the text it was read from.
#[derive(Clone, Debug, PartialEq)]
pub struct Token {
    pub token_type: TokenType,
    pub literal: String,
}

impl Token {
    pub fn new(token_type: TokenType, literal: String) -> (r: Self)
        ensures
            r.token_type == token_type,
            r.literal == literal,
    {
        Self { token_type, literal }
    }
}

} // verus!
