//! Tokens produced by the lexer.
use vstd::prelude::*;

verus! {

/// Token type and related structures
#[derive(Debug, Clone, PartialEq)]
pub enum Token {
    // Literals
    Int(i64),
    /// A floating-point literal, kept as the decimal text it was written
    /// with (digits, a point, digits).
    Float(String),
    StringLit(String),
    BoolLit(bool),
    // Keywords
    KwLet,
    KwFn,
    KwIf,
    KwElse,
    KwReturn,
    KwWhile,
    KwTrue,
    KwFalse,
    // Identifiers
    Ident(String),
    // Operators
    Plus,
    Minus,
    Star,
    Slash,
    Percent,
    // Comparison
    Eq,
    NotEq,
    Lt,
    Gt,
    Le,
    Ge,
    // Assignment
    Assign,
    // Logical
    And,
    Or,
    Not,
    // Delimiters
    LParen,
    RParen,
    LBrace,
    RBrace,
    LBracket,
    RBracket,
    // Punctuation
    Semicolon,
    Colon,
    Comma,
    Dot,
    Arrow,
    // Special
    Eof,
    Error(String),
}

/// A token with its text payloads as character sequences.
pub enum TokenV {
    Int(i64),
    Float(Seq<char>),
    StringLit(Seq<char>),
    BoolLit(bool),
    KwLet,
    KwFn,
    KwIf,
    KwElse,
    KwReturn,
    KwWhile,
    KwTrue,
    KwFalse,
    Ident(Seq<char>),
    Plus,
    Minus,
    Star,
    Slash,
    Percent,
    Eq,
    NotEq,
    Lt,
    Gt,
    Le,
    Ge,
    Assign,
    And,
    Or,
    Not,
    LParen,
    RParen,
    LBrace,
    RBrace,
    LBracket,
    RBracket,
    Semicolon,
    Colon,
    Comma,
    Dot,
    Arrow,
    Eof,
    Error(Seq<char>),
}

impl View for Token {
    type V = TokenV;

    open spec fn view(&self) -> TokenV {
        match self {
            Token::Int(n) => TokenV::Int(*n),
            Token::Float(s) => TokenV::Float(s@),
            Token::StringLit(s) => TokenV::StringLit(s@),
            Token::BoolLit(b) => TokenV::BoolLit(*b),
            Token::KwLet => TokenV::KwLet,
            Token::KwFn => TokenV::KwFn,
            Token::KwIf => TokenV::KwIf,
            Token::KwElse => TokenV::KwElse,
            Token::KwReturn => TokenV::KwReturn,
            Token::KwWhile => TokenV::KwWhile,
            Token::KwTrue => TokenV::KwTrue,
            Token::KwFalse => TokenV::KwFalse,
            Token::Ident(s) => TokenV::Ident(s@),
            Token::Plus => TokenV::Plus,
            Token::Minus => TokenV::Minus,
            Token::Star => TokenV::Star,
            Token::Slash => TokenV::Slash,
            Token::Percent => TokenV::Percent,
            Token::Eq => TokenV::Eq,
            Token::NotEq => TokenV::NotEq,
            Token::Lt => TokenV::Lt,
            Token::Gt => TokenV::Gt,
            Token::Le => TokenV::Le,
            Token::Ge => TokenV::Ge,
            Token::Assign => TokenV::Assign,
            Token::And => TokenV::And,
            Token::Or => TokenV::Or,
            Token::Not => TokenV::Not,
            Token::LParen => TokenV::LParen,
            Token::RParen => TokenV::RParen,
            Token::LBrace => TokenV::LBrace,
            Token::RBrace => TokenV::RBrace,
            Token::LBracket => TokenV::LBracket,
            Token::RBracket => TokenV::RBracket,
            Token::Semicolon => TokenV::Semicolon,
            Token::Colon => TokenV::Colon,
            Token::Comma => TokenV::Comma,
            Token::Dot => TokenV::Dot,
            Token::Arrow => TokenV::Arrow,
            Token::Eof => TokenV::Eof,
            Token::Error(s) => TokenV::Error(s@),
        }
    }
}

/// The views of a sequence of tokens.
pub open spec fn tokens_view(ts: Seq<Token>) -> Seq<TokenV> {
    ts.map_values(|t: Token| t@)
}

impl Token {
    /// A copy of the token.
    pub fn duplicate(&self) -> (r: Token)
        ensures
            r@ == self@,
    {
        match self {
            Token::Int(n) => Token::Int(*n),
            Token::Float(s) => Token::Float(s.clone()),
            Token::StringLit(s) => Token::StringLit(s.clone()),
            Token::BoolLit(b) => Token::BoolLit(*b),
            Token::KwLet => Token::KwLet,
            Token::KwFn => Token::KwFn,
            Token::KwIf => Token::KwIf,
            Token::KwElse => Token::KwElse,
            Token::KwReturn => Token::KwReturn,
            Token::KwWhile => Token::KwWhile,
            Token::KwTrue => Token::KwTrue,
            Token::KwFalse => Token::KwFalse,
            Token::Ident(s) => Token::Ident(s.clone()),
            Token::Plus => Token::Plus,
            Token::Minus => Token::Minus,
            Token::Star => Token::Star,
            Token::Slash => Token::Slash,
            Token::Percent => Token::Percent,
            Token::Eq => Token::Eq,
            Token::NotEq => Token::NotEq,
            Token::Lt => Token::Lt,
            Token::Gt => Token::Gt,
            Token::Le => Token::Le,
            Token::Ge => Token::Ge,
            Token::Assign => Token::Assign,
            Token::And => Token::And,
            Token::Or => Token::Or,
            Token::Not => Token::Not,
            Token::LParen => Token::LParen,
            Token::RParen => Token::RParen,
            Token::LBrace => Token::LBrace,
            Token::RBrace => Token::RBrace,
            Token::LBracket => Token::LBracket,
            Token::RBracket => Token::RBracket,
            Token::Semicolon => Token::Semicolon,
            Token::Colon => Token::Colon,
            Token::Comma => Token::Comma,
            Token::Dot => Token::Dot,
            Token::Arrow => Token::Arrow,
            Token::Eof => Token::Eof,
            Token::Error(s) => Token::Error(s.clone()),
        }
    }
}

/// Token with position information
#[derive(Debug, Clone)]
pub struct SpannedToken {
    pub token: Token,
    pub line: usize,
    pub col: usize,
}

impl SpannedToken {
    pub fn new(token: Token, line: usize, col: usize) -> (r: Self)
        ensures
            r.token == token,
            r.line == line,
            r.col == col,
    {
        SpannedToken { token, line, col }
    }
}

} // verus!
