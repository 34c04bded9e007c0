//! A token: its kind, the text it was read from, its value and its line.
use vstd::prelude::*;
use crate::number::{Number, parts_literal_text};
use crate::token::token_type::{TokenType, kind_name};

verus! {

/// The value that a token carries.
#[derive(Clone, Debug)]
pub enum Literal {
    Identifier(String),
    Str(String),
    Number(Number),
}

pub enum LiteralModel {
    Identifier(Seq<char>),
    Str(Seq<char>),
    Number(Number),
}

impl View for Literal {
    type V = LiteralModel;

    open spec fn view(&self) -> LiteralModel {
        match self {
            Literal::Identifier(s) => LiteralModel::Identifier(s@),
            Literal::Str(s) => LiteralModel::Str(s@),
            Literal::Number(n) => LiteralModel::Number(*n),
        }
    }
}

pub open spec fn literal_text(l: LiteralModel) -> Seq<char> {
    match l {
        LiteralModel::Identifier(s) => s,
        LiteralModel::Str(s) => s,
        LiteralModel::Number(n) => parts_literal_text(n.parts()),
    }
}

impl Literal {
    pub fn duplicate(&self) -> (r: Literal)
        ensures
            r@ == self@,
    {
        match self {
            Literal::Identifier(s) => Literal::Identifier(s.clone()),
            Literal::Str(s) => Literal::Str(s.clone()),
            Literal::Number(n) => Literal::Number(*n),
        }
    }

    /// The text of the value, as a token listing writes it.
    pub fn to_text(&self) -> (r: String)
        ensures
            r@ == literal_text(self@),
    {
        match self {
            Literal::Identifier(s) => s.clone(),
            Literal::Str(s) => s.clone(),
            Literal::Number(n) => n.to_literal_text(),
        }
    }
}

#[derive(Clone, Debug)]
pub struct Token {
    pub token_type: TokenType,
    pub lexeme: String,
    pub literal: Option<Literal>,
    pub line: usize,
}

pub struct TokenModel {
    pub kind: TokenType,
    pub lexeme: Seq<char>,
    pub literal: Option<LiteralModel>,
    pub line: nat,
}

impl View for Token {
    type V = TokenModel;

    open spec fn view(&self) -> TokenModel {
        TokenModel {
            kind: self.token_type,
            lexeme: self.lexeme@,
            literal: match self.literal {
                Some(l) => Some(l@),
                None => None,
            },
            line: self.line as nat,
        }
    }
}

/// `<KIND> <lexeme> <literal>`, with `null` for a token without a value.
pub open spec fn token_text(t: TokenModel) -> Seq<char> {
    kind_name(t.kind) + seq![' '] + t.lexeme + seq![' '] + match t.literal {
        Some(l) => literal_text(l),
        None => "null"@,
    }
}

impl Token {
    pub fn duplicate(&self) -> (r: Token)
        ensures
            r@ == self@,
    {
        Token {
            token_type: self.token_type,
            lexeme: self.lexeme.clone(),
            literal: match &self.literal {
                Some(l) => Some(l.duplicate()),
                None => None,
            },
            line: self.line,
        }
    }

    /// The line that a token listing writes for this token.
    pub fn to_text(&self) -> (r: String)
        ensures
            r@ == token_text(self@),
    {
        let mut s = self.token_type.name();
        s.push(' ');
        s.append(self.lexeme.as_str());
        s.push(' ');
        let tail = match &self.literal {
            Some(l) => l.to_text(),
            None => String::from_str("null"),
        };
        s.append(tail.as_str());
        assert(s@ =~= token_text(self@));
        s
    }
}

} // verus!
