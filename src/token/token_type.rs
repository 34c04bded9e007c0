//! The kinds of token.
use vstd::prelude::*;

verus! {

#[derive(Clone, Copy, Debug, PartialEq, Eq, Structural, Hash)]
pub enum TokenType {
    LeftParen,
    RightParen,
    LeftBrace,
    RightBrace,
    Comma,
    Dot,
    Minus,
    Plus,
    Semicolon,
    Slash,
    Star,
    Bang,
    BangEqual,
    Equal,
    EqualEqual,
    Greater,
    GreaterEqual,
    Less,
    LessEqual,
    Identifier,
    String,
    Number,
    And,
    Class,
    Else,
    False,
    Fun,
    For,
    If,
    Nil,
    Or,
    Print,
    Return,
    Super,
    This,
    True,
    Var,
    While,
    EOF,
}

/// The name under which a kind of token is written.
pub open spec fn kind_name(t: TokenType) -> Seq<char> {
    match t {
        TokenType::LeftParen => "LEFT_PAREN"@,
        TokenType::RightParen => "RIGHT_PAREN"@,
        TokenType::LeftBrace => "LEFT_BRACE"@,
        TokenType::RightBrace => "RIGHT_BRACE"@,
        TokenType::Comma => "COMMA"@,
        TokenType::Dot => "DOT"@,
        TokenType::Minus => "MINUS"@,
        TokenType::Plus => "PLUS"@,
        TokenType::Semicolon => "SEMICOLON"@,
        TokenType::Slash => "SLASH"@,
        TokenType::Star => "STAR"@,
        TokenType::Bang => "BANG"@,
        TokenType::BangEqual => "BANG_EQUAL"@,
        TokenType::Equal => "EQUAL"@,
        TokenType::EqualEqual => "EQUAL_EQUAL"@,
        TokenType::Greater => "GREATER"@,
        TokenType::GreaterEqual => "GREATER_EQUAL"@,
        TokenType::Less => "LESS"@,
        TokenType::LessEqual => "LESS_EQUAL"@,
        TokenType::Identifier => "IDENTIFIER"@,
        TokenType::String => "STRING"@,
        TokenType::Number => "NUMBER"@,
        TokenType::And => "AND"@,
        TokenType::Class => "CLASS"@,
        TokenType::Else => "ELSE"@,
        TokenType::False => "FALSE"@,
        TokenType::Fun => "FUN"@,
        TokenType::For => "FOR"@,
        TokenType::If => "IF"@,
        TokenType::Nil => "NIL"@,
        TokenType::Or => "OR"@,
        TokenType::Print => "PRINT"@,
        TokenType::Return => "RETURN"@,
        TokenType::Super => "SUPER"@,
        TokenType::This => "THIS"@,
        TokenType::True => "TRUE"@,
        TokenType::Var => "VAR"@,
        TokenType::While => "WHILE"@,
        TokenType::EOF => "EOF"@,
    }
}

impl TokenType {
    pub fn name(&self) -> (r: String)
        ensures
            r@ == kind_name(*self),
    {
        match self {
            TokenType::LeftParen => String::from_str("LEFT_PAREN"),
            TokenType::RightParen => String::from_str("RIGHT_PAREN"),
            TokenType::LeftBrace => String::from_str("LEFT_BRACE"),
            TokenType::RightBrace => String::from_str("RIGHT_BRACE"),
            TokenType::Comma => String::from_str("COMMA"),
            TokenType::Dot => String::from_str("DOT"),
            TokenType::Minus => String::from_str("MINUS"),
            TokenType::Plus => String::from_str("PLUS"),
            TokenType::Semicolon => String::from_str("SEMICOLON"),
            TokenType::Slash => String::from_str("SLASH"),
            TokenType::Star => String::from_str("STAR"),
            TokenType::Bang => String::from_str("BANG"),
            TokenType::BangEqual => String::from_str("BANG_EQUAL"),
            TokenType::Equal => String::from_str("EQUAL"),
            TokenType::EqualEqual => String::from_str("EQUAL_EQUAL"),
            TokenType::Greater => String::from_str("GREATER"),
            TokenType::GreaterEqual => String::from_str("GREATER_EQUAL"),
            TokenType::Less => String::from_str("LESS"),
            TokenType::LessEqual => String::from_str("LESS_EQUAL"),
            TokenType::Identifier => String::from_str("IDENTIFIER"),
            TokenType::String => String::from_str("STRING"),
            TokenType::Number => String::from_str("NUMBER"),
            TokenType::And => String::from_str("AND"),
            TokenType::Class => String::from_str("CLASS"),
            TokenType::Else => String::from_str("ELSE"),
            TokenType::False => String::from_str("FALSE"),
            TokenType::Fun => String::from_str("FUN"),
            TokenType::For => String::from_str("FOR"),
            TokenType::If => String::from_str("IF"),
            TokenType::Nil => String::from_str("NIL"),
            TokenType::Or => String::from_str("OR"),
            TokenType::Print => String::from_str("PRINT"),
            TokenType::Return => String::from_str("RETURN"),
            TokenType::Super => String::from_str("SUPER"),
            TokenType::This => String::from_str("THIS"),
            TokenType::True => String::from_str("TRUE"),
            TokenType::Var => String::from_str("VAR"),
            TokenType::While => String::from_str("WHILE"),
            TokenType::EOF => String::from_str("EOF"),
        }
    }
}

} // verus!
