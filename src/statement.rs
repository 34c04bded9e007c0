//! Statements.
use vstd::prelude::*;
use crate::expr::{Expr, ExprModel, expr_text};
use crate::token::token::{Token, TokenModel};

verus! {

#[derive(Debug)]
pub enum Statement {
    Print(Expr),
    Expression(Expr),
    Var(Token, Option<Expr>),
    Block(Vec<Statement>),
    If(Expr, Box<Statement>, Option<Box<Statement>>),
    While(Expr, Box<Statement>),
}

pub enum StmtModel {
    Print(ExprModel),
    Expression(ExprModel),
    Var(TokenModel, Option<ExprModel>),
    Block(Seq<StmtModel>),
    If(ExprModel, Box<StmtModel>, Option<Box<StmtModel>>),
    While(ExprModel, Box<StmtModel>),
}

pub open spec fn stmt_view(s: Statement) -> StmtModel
    decreases s, 0nat,
{
    match s {
        Statement::Print(e) => StmtModel::Print(e@),
        Statement::Expression(e) => StmtModel::Expression(e@),
        Statement::Var(t, init) => StmtModel::Var(t@, match init {
            Some(e) => Some(e@),
            None => None,
        }),
        Statement::Block(v) => {
            proof {
                assert(decreases_to!(s => v));
                assert(decreases_to!(v => v@));
            }
            StmtModel::Block(stmts_view(v@))
        },
        Statement::If(c, t, e) => StmtModel::If(c@, Box::new(stmt_view(*t)), match e {
            Some(x) => Some(Box::new(stmt_view(*x))),
            None => None,
        }),
        Statement::While(c, b) => StmtModel::While(c@, Box::new(stmt_view(*b))),
    }
}

pub open spec fn stmts_view(ss: Seq<Statement>) -> Seq<StmtModel>
    decreases ss, 1nat,
{
    if ss.len() == 0 {
        Seq::empty()
    } else {
        stmts_view(ss.drop_last()).push(stmt_view(ss.last()))
    }
}

impl View for Statement {
    type V = StmtModel;

    open spec fn view(&self) -> StmtModel {
        stmt_view(*self)
    }
}

/// The source text of a statement, which reads back as the statement.
pub open spec fn stmt_text(s: StmtModel) -> Seq<char>
    decreases s, 1nat,
{
    match s {
        StmtModel::Print(e) => "print "@ + expr_text(e) + ";"@,
        StmtModel::Expression(e) => expr_text(e) + ";"@,
        StmtModel::Var(t, init) => match init {
            Some(e) => "var "@ + t.lexeme + " = "@ + expr_text(e) + ";"@,
            None => "var "@ + t.lexeme + ";"@,
        },
        StmtModel::Block(ss) => "{"@ + block_text(ss) + " }"@,
        StmtModel::If(c, t, e) => match e {
            Some(x) => "if ("@ + expr_text(c) + ") "@ + stmt_text(*t) + " else "@ + stmt_text(*x),
            None => "if ("@ + expr_text(c) + ") "@ + stmt_text(*t),
        },
        StmtModel::While(c, b) => "while ("@ + expr_text(c) + ") "@ + stmt_text(*b),
    }
}

/// Each statement's text after a space.
pub open spec fn block_text(ss: Seq<StmtModel>) -> Seq<char>
    decreases ss, 0nat,
{
    if ss.len() == 0 {
        Seq::empty()
    } else {
        block_text(ss.drop_last()) + " "@ + stmt_text(ss.last())
    }
}

pub proof fn lemma_stmts_view_index(ss: Seq<Statement>)
    ensures
        stmts_view(ss).len() == ss.len(),
        forall|i: int| 0 <= i < ss.len() ==> #[trigger] stmts_view(ss)[i] == ss[i]@,
    decreases ss.len(),
{
    if ss.len() > 0 {
        lemma_stmts_view_index(ss.drop_last());
    }
}

/// Each statement's text after a space.
pub fn block_to_text(ss: &Vec<Statement>) -> (r: String)
    ensures
        r@ == block_text(stmts_view(ss@)),
    decreases ss,
{
    let mut s = String::new();
    let ghost xs = stmts_view(ss@);
    proof {
        lemma_stmts_view_index(ss@);
        assert(xs.take(0) =~= Seq::<StmtModel>::empty());
    }
    let mut i: usize = 0;
    while i < ss.len()
        invariant
            i <= ss.len(),
            xs == stmts_view(ss@),
            xs.len() == ss.len(),
            forall|k: int| 0 <= k < ss.len() ==> #[trigger] xs[k] == ss@[k]@,
            s@ == block_text(xs.take(i as int)),
        decreases ss.len() - i,
    {
        proof {
            assert(decreases_to!(ss => ss@));
            assert(decreases_to!(ss@ => ss@[i as int]));
            assert(xs.take(i + 1).drop_last() =~= xs.take(i as int));
            assert(xs.take(i + 1).last() == ss@[i as int]@);
        }
        s.append(" ");
        s.append(ss[i].to_text().as_str());
        i = i + 1;
    }
    assert(xs.take(i as int) =~= xs);
    s
}

impl Statement {
    /// The source text of this statement.
    pub fn to_text(&self) -> (r: String)
        ensures
            r@ == stmt_text(self@),
        decreases self,
    {
        let mut s;
        match self {
            Statement::Print(e) => {
                s = String::from_str("print ");
                s.append(e.to_text().as_str());
                s.append(";");
            },
            Statement::Expression(e) => {
                s = e.to_text();
                s.append(";");
            },
            Statement::Var(t, init) => {
                s = String::from_str("var ");
                s.append(t.lexeme.as_str());
                match init {
                    Some(e) => {
                        s.append(" = ");
                        s.append(e.to_text().as_str());
                    },
                    None => {},
                }
                s.append(";");
            },
            Statement::Block(ss) => {
                s = String::from_str("{");
                s.append(block_to_text(ss).as_str());
                s.append(" }");
            },
            Statement::If(c, t, e) => {
                s = String::from_str("if (");
                s.append(c.to_text().as_str());
                s.append(") ");
                s.append(t.to_text().as_str());
                match e {
                    Some(x) => {
                        s.append(" else ");
                        s.append(x.to_text().as_str());
                    },
                    None => {},
                }
            },
            Statement::While(c, b) => {
                s = String::from_str("while (");
                s.append(c.to_text().as_str());
                s.append(") ");
                s.append(b.to_text().as_str());
            },
        }
        s
    }
}

} // verus!
