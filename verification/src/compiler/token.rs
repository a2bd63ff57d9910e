use vstd::prelude::*;

verus! {

/// The kinds of token.
#[derive(Debug, PartialEq, Eq, Clone, Copy, Hash, Structural)]
pub enum TokenType {
    LeftParen,
    RightParen,
    LeftBrace,
    RightBrace,
    Comma,
    Dot,
    Minus,
    Plus,
    Semicolon,
    Slash,
    Star,
    Bang,
    BangEqual,
    Equal,
    EqualEqual,
    Greater,
    GreaterEqual,
    Less,
    LessEqual,
    Identifier,
    String,
    Number,
    And,
    Class,
    Else,
    False,
    For,
    Fun,
    If,
    Nil,
    Or,
    Print,
    Return,
    Super,
    This,
    True,
    Var,
    While,
    Error,
    EOF,
}

/// A token: its kind, the offset and the length of its text in the source, the line it
/// ends on, and its text. The text of an error token is the error message.
#[derive(Debug, PartialEq)]
pub struct Token {
    pub token_type: TokenType,
    pub length: usize,
    pub line: usize,
    pub start: usize,
    pub lexeme: Vec<u8>,
}

impl Token {
    /// A token of the given kind, place and text.
    pub fn new(token_type: TokenType, length: usize, line: usize, start: usize, lexeme: Vec<u8>) -> (r:
        Self)
        ensures
            r.token_type == token_type,
            r.length == length,
            r.line == line,
            r.start == start,
            r.lexeme@ == lexeme@,
    {
        Token { token_type, length, line, start, lexeme }
    }

}

impl Clone for Token {
    fn clone(&self) -> (r: Self)
        ensures
            r.token_type == self.token_type,
            r.length == self.length,
            r.line == self.line,
            r.start == self.start,
            r.lexeme@ == self.lexeme@,
    {
        Token {
            token_type: self.token_type,
            length: self.length,
            line: self.line,
            start: self.start,
            lexeme: self.lexeme.clone(),
        }
    }
}

} // verus!
