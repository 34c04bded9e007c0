//! Expressions.
use vstd::prelude::*;
use crate::number::{Number, parts_literal_text};
use crate::token::token::{Token, TokenModel};

verus! {

#[derive(Debug)]
pub enum Expr {
    Unary(UnaryOp, Box<Expr>),
    Literal(Literal),
    Binary(Box<Expr>, BinaryOp, Box<Expr>),
    Grouping(Box<Expr>),
    Variable(Token),
    Assign(Token, Box<Expr>),
    Logical(Box<Expr>, LogicalOp, Box<Expr>),
}

#[derive(Clone, Copy, Debug, PartialEq, Eq, Structural)]
pub enum LogicalOp {
    Or,
    And,
}

#[derive(Clone, Copy, Debug, PartialEq, Eq, Structural)]
pub enum BinaryOp {
    Plus,
    Minus,
    Star,
    Slash,
    EqualEqual,
    BangEqual,
    Less,
    LessEqual,
    Greater,
    GreaterEqual,
}

#[derive(Clone, Copy, Debug, PartialEq, Eq, Structural)]
pub enum UnaryOp {
    Minus,
    Bang,
}

/// A literal written in an expression.
#[derive(Clone, Debug)]
pub enum Literal {
    Str(String),
    Number(Number),
    Nil,
    False,
    True,
}

pub enum LitModel {
    Str(Seq<char>),
    Number(Number),
    Nil,
    False,
    True,
}

pub enum ExprModel {
    Unary(UnaryOp, Box<ExprModel>),
    Literal(LitModel),
    Binary(Box<ExprModel>, BinaryOp, Box<ExprModel>),
    Grouping(Box<ExprModel>),
    Variable(TokenModel),
    Assign(TokenModel, Box<ExprModel>),
    Logical(Box<ExprModel>, LogicalOp, Box<ExprModel>),
}

impl View for Literal {
    type V = LitModel;

    open spec fn view(&self) -> LitModel {
        match self {
            Literal::Str(s) => LitModel::Str(s@),
            Literal::Number(n) => LitModel::Number(*n),
            Literal::Nil => LitModel::Nil,
            Literal::False => LitModel::False,
            Literal::True => LitModel::True,
        }
    }
}

pub open spec fn expr_view(e: Expr) -> ExprModel
    decreases e,
{
    match e {
        Expr::Unary(op, x) => ExprModel::Unary(op, Box::new(expr_view(*x))),
        Expr::Literal(l) => ExprModel::Literal(l@),
        Expr::Binary(a, op, b) => ExprModel::Binary(Box::new(expr_view(*a)), op, Box::new(expr_view(*b))),
        Expr::Grouping(x) => ExprModel::Grouping(Box::new(expr_view(*x))),
        Expr::Variable(t) => ExprModel::Variable(t@),
        Expr::Assign(t, x) => ExprModel::Assign(t@, Box::new(expr_view(*x))),
        Expr::Logical(a, op, b) => ExprModel::Logical(Box::new(expr_view(*a)), op, Box::new(expr_view(*b))),
    }
}

impl View for Expr {
    type V = ExprModel;

    open spec fn view(&self) -> ExprModel {
        expr_view(*self)
    }
}

pub open spec fn logical_op_text(op: LogicalOp) -> Seq<char> {
    match op {
        LogicalOp::Or => "or"@,
        LogicalOp::And => "and"@,
    }
}

pub open spec fn binary_op_text(op: BinaryOp) -> Seq<char> {
    match op {
        BinaryOp::Plus => "+"@,
        BinaryOp::Minus => "-"@,
        BinaryOp::Star => "*"@,
        BinaryOp::Slash => "/"@,
        BinaryOp::EqualEqual => "=="@,
        BinaryOp::BangEqual => "!="@,
        BinaryOp::Less => "<"@,
        BinaryOp::LessEqual => "<="@,
        BinaryOp::Greater => ">"@,
        BinaryOp::GreaterEqual => ">="@,
    }
}

pub open spec fn unary_op_text(op: UnaryOp) -> Seq<char> {
    match op {
        UnaryOp::Minus => "-"@,
        UnaryOp::Bang => "!"@,
    }
}

pub open spec fn lit_text(l: LitModel) -> Seq<char> {
    match l {
        LitModel::Str(s) => seq!['"'] + s + seq!['"'],
        LitModel::Number(n) => parts_literal_text(n.parts()),
        LitModel::Nil => "nil"@,
        LitModel::False => "false"@,
        LitModel::True => "true"@,
    }
}

/// The source text of an expression: operators between their operands,
/// parentheses only where the expression holds a grouping.
pub open spec fn expr_text(e: ExprModel) -> Seq<char>
    decreases e,
{
    match e {
        ExprModel::Unary(op, x) => unary_op_text(op) + expr_text(*x),
        ExprModel::Literal(l) => lit_text(l),
        ExprModel::Binary(a, op, b) => expr_text(*a) + " "@ + binary_op_text(op) + " "@ + expr_text(*b),
        ExprModel::Grouping(x) => "("@ + expr_text(*x) + ")"@,
        ExprModel::Variable(t) => t.lexeme,
        ExprModel::Assign(t, x) => t.lexeme + " = "@ + expr_text(*x),
        ExprModel::Logical(a, op, b) => expr_text(*a) + " "@ + logical_op_text(op) + " "@ + expr_text(*b),
    }
}

impl LogicalOp {
    pub fn to_text(&self) -> (r: String)
        ensures
            r@ == logical_op_text(*self),
    {
        match self {
            LogicalOp::Or => String::from_str("or"),
            LogicalOp::And => String::from_str("and"),
        }
    }
}

impl BinaryOp {
    pub fn to_text(&self) -> (r: String)
        ensures
            r@ == binary_op_text(*self),
    {
        match self {
            BinaryOp::Plus => String::from_str("+"),
            BinaryOp::Minus => String::from_str("-"),
            BinaryOp::Star => String::from_str("*"),
            BinaryOp::Slash => String::from_str("/"),
            BinaryOp::EqualEqual => String::from_str("=="),
            BinaryOp::BangEqual => String::from_str("!="),
            BinaryOp::Less => String::from_str("<"),
            BinaryOp::LessEqual => String::from_str("<="),
            BinaryOp::Greater => String::from_str(">"),
            BinaryOp::GreaterEqual => String::from_str(">="),
        }
    }
}

impl UnaryOp {
    pub fn to_text(&self) -> (r: String)
        ensures
            r@ == unary_op_text(*self),
    {
        match self {
            UnaryOp::Minus => String::from_str("-"),
            UnaryOp::Bang => String::from_str("!"),
        }
    }
}

impl Literal {
    pub fn to_text(&self) -> (r: String)
        ensures
            r@ == lit_text(self@),
    {
        match self {
            Literal::Str(s) => {
                let mut t = String::new();
                t.push('"');
                t.append(s.as_str());
                t.push('"');
                assert(t@ =~= seq!['"'] + s@ + seq!['"']);
                t
            },
            Literal::Number(n) => n.to_literal_text(),
            Literal::Nil => String::from_str("nil"),
            Literal::False => String::from_str("false"),
            Literal::True => String::from_str("true"),
        }
    }
}

impl Expr {
    /// The source text of this expression.
    pub fn to_text(&self) -> (r: String)
        ensures
            r@ == expr_text(self@),
        decreases self,
    {
        let mut s;
        match self {
            Expr::Unary(op, x) => {
                s = op.to_text();
                s.append(x.to_text().as_str());
            },
            Expr::Literal(l) => {
                s = l.to_text();
            },
            Expr::Binary(a, op, b) => {
                s = a.to_text();
                s.append(" ");
                s.append(op.to_text().as_str());
                s.append(" ");
                s.append(b.to_text().as_str());
            },
            Expr::Grouping(x) => {
                s = String::from_str("(");
                s.append(x.to_text().as_str());
                s.append(")");
            },
            Expr::Variable(t) => {
                s = t.lexeme.clone();
            },
            Expr::Assign(t, x) => {
                s = t.lexeme.clone();
                s.append(" = ");
                s.append(x.to_text().as_str());
            },
            Expr::Logical(a, op, b) => {
                s = a.to_text();
                s.append(" ");
                s.append(op.to_text().as_str());
                s.append(" ");
                s.append(b.to_text().as_str());
            },
        }
        s
    }
}

} // verus!
