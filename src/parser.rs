//! The parser: tokens to statements, by recursive descent.
use vstd::prelude::*;
use crate::expr::{BinaryOp, Expr, ExprModel, LitModel, Literal, LogicalOp, UnaryOp};
use crate::parse_error::{Expectation, ParseError};
use crate::statement::{Statement, StmtModel, stmts_view};
use crate::token::token::{LiteralModel, Token, TokenModel};
use crate::token::token_type::TokenType;
use crate::tokenizer::tokens_view;

verus! {

/// A parse from a position: what was read and where reading goes on, or the
/// first mismatch.
pub type Parsed<T> = Result<(T, nat), ParseError>;

pub open spec fn kind_at(ts: Seq<TokenModel>, p: nat) -> TokenType {
    if p < ts.len() { ts[p as int].kind } else { TokenType::EOF }
}

pub open spec fn at_end(ts: Seq<TokenModel>, p: nat) -> bool {
    kind_at(ts, p) == TokenType::EOF
}

pub open spec fn check(ts: Seq<TokenModel>, p: nat, k: TokenType) -> bool {
    !at_end(ts, p) && kind_at(ts, p) == k
}

/// Reading moved on from `p` and stayed within the tokens.
pub open spec fn progressed(ts: Seq<TokenModel>, p: nat, q: nat) -> bool {
    p < q <= ts.len()
}

/// What a parse answers where reading did not move on; no parse gives it.
pub open spec fn stalled<T>() -> Parsed<T> {
    Err(ParseError::UnexpectedTokenError(TokenType::EOF))
}

pub open spec fn expected<T>(ts: Seq<TokenModel>, p: nat, e: Expectation) -> Parsed<T> {
    Err(ParseError::ExpectedToken(kind_at(ts, p), e))
}

pub open spec fn binary_op_of(k: TokenType) -> BinaryOp {
    match k {
        TokenType::Plus => BinaryOp::Plus,
        TokenType::Minus => BinaryOp::Minus,
        TokenType::Star => BinaryOp::Star,
        TokenType::Slash => BinaryOp::Slash,
        TokenType::EqualEqual => BinaryOp::EqualEqual,
        TokenType::BangEqual => BinaryOp::BangEqual,
        TokenType::Less => BinaryOp::Less,
        TokenType::LessEqual => BinaryOp::LessEqual,
        TokenType::Greater => BinaryOp::Greater,
        _ => BinaryOp::GreaterEqual,
    }
}

pub open spec fn is_equality_kind(k: TokenType) -> bool {
    k == TokenType::BangEqual || k == TokenType::EqualEqual
}

pub open spec fn is_comparison_kind(k: TokenType) -> bool {
    k == TokenType::Greater || k == TokenType::GreaterEqual || k == TokenType::Less || k == TokenType::LessEqual
}

pub open spec fn is_term_kind(k: TokenType) -> bool {
    k == TokenType::Minus || k == TokenType::Plus
}

pub open spec fn is_factor_kind(k: TokenType) -> bool {
    k == TokenType::Slash || k == TokenType::Star
}

/// The binary operator levels, from the loosest: `1` equality, `2`
/// comparison, `3` term, `4` factor.
pub open spec fn is_level_kind(level: nat, k: TokenType) -> bool {
    if level == 1 { is_equality_kind(k) }
    else if level == 2 { is_comparison_kind(k) }
    else if level == 3 { is_term_kind(k) }
    else { is_factor_kind(k) }
}

/// declaration → varDecl | statement
#[verifier::opaque]
pub open spec fn declaration(ts: Seq<TokenModel>, p: nat) -> Parsed<StmtModel>
    decreases ts.len() - p, 30nat,
{
    if p > ts.len() {
        stalled()
    } else if check(ts, p, TokenType::Var) {
        var_declaration(ts, p + 1)
    } else {
        statement(ts, p)
    }
}

/// varDecl → "var" IDENTIFIER ( "=" expression )? ";", after the `var`.
#[verifier::opaque]
pub open spec fn var_declaration(ts: Seq<TokenModel>, p: nat) -> Parsed<StmtModel>
    decreases ts.len() - p, 29nat,
{
    if p > ts.len() {
        stalled()
    } else if !check(ts, p, TokenType::Identifier) {
        expected(ts, p, Expectation::VariableName)
    } else {
        let name = ts[p as int];
        let q = p + 1;
        if check(ts, q, TokenType::Equal) {
            match expression(ts, q + 1) {
                Err(e) => Err(e),
                Ok((init, r)) => if !progressed(ts, p, r) {
                    stalled()
                } else if check(ts, r, TokenType::Semicolon) {
                    Ok((StmtModel::Var(name, Some(init)), r + 1))
                } else {
                    expected(ts, r, Expectation::SemicolonAfterVariable)
                },
            }
        } else if check(ts, q, TokenType::Semicolon) {
            Ok((StmtModel::Var(name, None), q + 1))
        } else {
            expected(ts, q, Expectation::SemicolonAfterVariable)
        }
    }
}

/// statement → forStmt | ifStmt | printStmt | whileStmt | block | exprStmt
#[verifier::opaque]
pub open spec fn statement(ts: Seq<TokenModel>, p: nat) -> Parsed<StmtModel>
    decreases ts.len() - p, 28nat,
{
    if p > ts.len() {
        stalled()
    } else if check(ts, p, TokenType::For) {
        for_statement(ts, p + 1)
    } else if check(ts, p, TokenType::If) {
        if_statement(ts, p + 1)
    } else if check(ts, p, TokenType::Print) {
        print_statement(ts, p + 1)
    } else if check(ts, p, TokenType::While) {
        while_statement(ts, p + 1)
    } else if check(ts, p, TokenType::LeftBrace) {
        match block(ts, p + 1) {
            Err(e) => Err(e),
            Ok((ss, q)) => Ok((StmtModel::Block(ss), q)),
        }
    } else {
        expression_statement(ts, p)
    }
}

/// The statement that a `for` loop stands for: the initializer, then a
/// `while` over the condition (`true` when absent) whose body is the loop's
/// body followed by the increment; in a block when there is an initializer.
pub open spec fn desugared_for(
    init: Option<StmtModel>,
    cond: Option<ExprModel>,
    incr: Option<ExprModel>,
    body: StmtModel,
) -> StmtModel {
    let body = match incr {
        Some(i) => StmtModel::Block(seq![body, StmtModel::Expression(i)]),
        None => body,
    };
    let cond = match cond {
        Some(c) => c,
        None => ExprModel::Literal(LitModel::True),
    };
    let w = StmtModel::While(cond, Box::new(body));
    match init {
        Some(s) => StmtModel::Block(seq![s, w]),
        None => w,
    }
}

/// forStmt, after the `for`.
#[verifier::opaque]
pub open spec fn for_statement(ts: Seq<TokenModel>, p: nat) -> Parsed<StmtModel>
    decreases ts.len() - p, 27nat,
{
    if p > ts.len() {
        stalled()
    } else if !check(ts, p, TokenType::LeftParen) {
        expected(ts, p, Expectation::ParenAfterFor)
    } else {
        let q = p + 1;
        let init: Parsed<Option<StmtModel>> = if check(ts, q, TokenType::Semicolon) {
            Ok((None, q + 1))
        } else if check(ts, q, TokenType::Var) {
            match var_declaration(ts, q + 1) {
                Err(e) => Err(e),
                Ok((s, r)) => Ok((Some(s), r)),
            }
        } else {
            match expression_statement(ts, q) {
                Err(e) => Err(e),
                Ok((s, r)) => Ok((Some(s), r)),
            }
        };
        match init {
            Err(e) => Err(e),
            Ok((init, q1)) => if !progressed(ts, p, q1) {
                stalled()
            } else {
                let cond: Parsed<Option<ExprModel>> = if check(ts, q1, TokenType::Semicolon) {
                    Ok((None, q1))
                } else {
                    match expression(ts, q1) {
                        Err(e) => Err(e),
                        Ok((c, r)) => Ok((Some(c), r)),
                    }
                };
                match cond {
                    Err(e) => Err(e),
                    Ok((cond, q2)) => if !progressed(ts, p, q2) {
                        stalled()
                    } else if !check(ts, q2, TokenType::Semicolon) {
                        expected(ts, q2, Expectation::SemicolonAfterLoopCondition)
                    } else {
                        let q3 = q2 + 1;
                        let incr: Parsed<Option<ExprModel>> = if check(ts, q3, TokenType::RightParen) {
                            Ok((None, q3))
                        } else {
                            match expression(ts, q3) {
                                Err(e) => Err(e),
                                Ok((c, r)) => Ok((Some(c), r)),
                            }
                        };
                        match incr {
                            Err(e) => Err(e),
                            Ok((incr, q4)) => if !progressed(ts, p, q4) {
                                stalled()
                            } else if !check(ts, q4, TokenType::RightParen) {
                                expected(ts, q4, Expectation::ParenAfterForClauses)
                            } else {
                                match statement(ts, q4 + 1) {
                                    Err(e) => Err(e),
                                    Ok((body, q5)) => Ok((desugared_for(init, cond, incr, body), q5)),
                                }
                            },
                        }
                    },
                }
            },
        }
    }
}

/// whileStmt, after the `while`.
#[verifier::opaque]
pub open spec fn while_statement(ts: Seq<TokenModel>, p: nat) -> Parsed<StmtModel>
    decreases ts.len() - p, 27nat,
{
    if p > ts.len() {
        stalled()
    } else if !check(ts, p, TokenType::LeftParen) {
        expected(ts, p, Expectation::ParenAfterWhile)
    } else {
        match expression(ts, p + 1) {
            Err(e) => Err(e),
            Ok((c, q)) => if !progressed(ts, p, q) {
                stalled()
            } else if !check(ts, q, TokenType::RightParen) {
                expected(ts, q, Expectation::ParenAfterCondition)
            } else {
                match statement(ts, q + 1) {
                    Err(e) => Err(e),
                    Ok((body, r)) => Ok((StmtModel::While(c, Box::new(body)), r)),
                }
            },
        }
    }
}

/// ifStmt, after the `if`.
#[verifier::opaque]
pub open spec fn if_statement(ts: Seq<TokenModel>, p: nat) -> Parsed<StmtModel>
    decreases ts.len() - p, 27nat,
{
    if p > ts.len() {
        stalled()
    } else if !check(ts, p, TokenType::LeftParen) {
        expected(ts, p, Expectation::ParenAfterIf)
    } else {
        match expression(ts, p + 1) {
            Err(e) => Err(e),
            Ok((c, q)) => if !progressed(ts, p, q) {
                stalled()
            } else if !check(ts, q, TokenType::RightParen) {
                expected(ts, q, Expectation::ParenAfterIfCondition)
            } else {
                match statement(ts, q + 1) {
                    Err(e) => Err(e),
                    Ok((t, r)) => if !progressed(ts, p, r) {
                        stalled()
                    } else if check(ts, r, TokenType::Else) {
                        match statement(ts, r + 1) {
                            Err(e) => Err(e),
                            Ok((f, s)) => Ok((StmtModel::If(c, Box::new(t), Some(Box::new(f))), s)),
                        }
                    } else {
                        Ok((StmtModel::If(c, Box::new(t), None), r))
                    },
                }
            },
        }
    }
}

/// The declarations of a block up to its `}`, after the `{`.
#[verifier::opaque]
pub open spec fn block(ts: Seq<TokenModel>, p: nat) -> Parsed<Seq<StmtModel>>
    decreases ts.len() - p, 31nat,
{
    if p > ts.len() {
        stalled()
    } else if check(ts, p, TokenType::RightBrace) {
        Ok((Seq::empty(), p + 1))
    } else if at_end(ts, p) {
        expected(ts, p, Expectation::BraceAfterBlock)
    } else {
        match declaration(ts, p) {
            Err(e) => Err(e),
            Ok((s, q)) => if !progressed(ts, p, q) {
                stalled()
            } else {
                match block(ts, q) {
                    Err(e) => Err(e),
                    Ok((rest, r)) => Ok((seq![s] + rest, r)),
                }
            },
        }
    }
}

/// printStmt, after the `print`.
#[verifier::opaque]
pub open spec fn print_statement(ts: Seq<TokenModel>, p: nat) -> Parsed<StmtModel>
    decreases ts.len() - p, 26nat,
{
    if p > ts.len() {
        stalled()
    } else {
        match expression(ts, p) {
            Err(e) => Err(e),
            Ok((e, q)) => if check(ts, q, TokenType::Semicolon) {
                Ok((StmtModel::Print(e), q + 1))
            } else {
                expected(ts, q, Expectation::SemicolonAfterValue)
            },
        }
    }
}

/// exprStmt → expression ";"
#[verifier::opaque]
pub open spec fn expression_statement(ts: Seq<TokenModel>, p: nat) -> Parsed<StmtModel>
    decreases ts.len() - p, 26nat,
{
    if p > ts.len() {
        stalled()
    } else {
        match expression(ts, p) {
            Err(e) => Err(e),
            Ok((e, q)) => if check(ts, q, TokenType::Semicolon) {
                Ok((StmtModel::Expression(e), q + 1))
            } else {
                expected(ts, q, Expectation::SemicolonAfterExpression)
            },
        }
    }
}

/// expression → assignment
#[verifier::opaque]
pub open spec fn expression(ts: Seq<TokenModel>, p: nat) -> Parsed<ExprModel>
    decreases ts.len() - p, 25nat,
{
    if p > ts.len() { stalled() } else { assignment(ts, p) }
}

/// assignment → IDENTIFIER "=" assignment | logic_or
#[verifier::opaque]
pub open spec fn assignment(ts: Seq<TokenModel>, p: nat) -> Parsed<ExprModel>
    decreases ts.len() - p, 24nat,
{
    if p > ts.len() {
        stalled()
    } else {
        match or(ts, p) {
            Err(e) => Err(e),
            Ok((left, q)) => if !progressed(ts, p, q) {
                stalled()
            } else if check(ts, q, TokenType::Equal) {
                match left {
                    ExprModel::Variable(name) => match assignment(ts, q + 1) {
                        Err(e) => Err(e),
                        Ok((value, r)) => Ok((ExprModel::Assign(name, Box::new(value)), r)),
                    },
                    _ => Err(ParseError::UnexpectedTokenError(TokenType::Equal)),
                }
            } else {
                Ok((left, q))
            },
        }
    }
}

/// logic_or → logic_and ( "or" logic_and )*
#[verifier::opaque]
pub open spec fn or(ts: Seq<TokenModel>, p: nat) -> Parsed<ExprModel>
    decreases ts.len() - p, 23nat,
{
    if p > ts.len() {
        stalled()
    } else {
        match and(ts, p) {
            Err(e) => Err(e),
            Ok((left, q)) => if !progressed(ts, p, q) { stalled() } else { or_rest(ts, q, left) },
        }
    }
}

#[verifier::opaque]
pub open spec fn or_rest(ts: Seq<TokenModel>, p: nat, left: ExprModel) -> Parsed<ExprModel>
    decreases ts.len() - p, 23nat,
{
    if p > ts.len() {
        stalled()
    } else if check(ts, p, TokenType::Or) {
        match and(ts, p + 1) {
            Err(e) => Err(e),
            Ok((right, q)) => if !progressed(ts, p, q) {
                stalled()
            } else {
                or_rest(ts, q, ExprModel::Logical(Box::new(left), LogicalOp::Or, Box::new(right)))
            },
        }
    } else {
        Ok((left, p))
    }
}

/// logic_and → equality ( "and" equality )*
#[verifier::opaque]
pub open spec fn and(ts: Seq<TokenModel>, p: nat) -> Parsed<ExprModel>
    decreases ts.len() - p, 22nat,
{
    if p > ts.len() {
        stalled()
    } else {
        match binary(ts, p, 1) {
            Err(e) => Err(e),
            Ok((left, q)) => if !progressed(ts, p, q) { stalled() } else { and_rest(ts, q, left) },
        }
    }
}

#[verifier::opaque]
pub open spec fn and_rest(ts: Seq<TokenModel>, p: nat, left: ExprModel) -> Parsed<ExprModel>
    decreases ts.len() - p, 22nat,
{
    if p > ts.len() {
        stalled()
    } else if check(ts, p, TokenType::And) {
        match binary(ts, p + 1, 1) {
            Err(e) => Err(e),
            Ok((right, q)) => if !progressed(ts, p, q) {
                stalled()
            } else {
                and_rest(ts, q, ExprModel::Logical(Box::new(left), LogicalOp::And, Box::new(right)))
            },
        }
    } else {
        Ok((left, p))
    }
}

/// The operand of binary level `level`: the next level, or a unary.
#[verifier::opaque]
pub open spec fn operand(ts: Seq<TokenModel>, p: nat, level: nat) -> Parsed<ExprModel>
    decreases ts.len() - p, 2 * (5 - level) + 1,
    when 1 <= level <= 4
{
    if p > ts.len() {
        stalled()
    } else if level < 4 {
        binary(ts, p, level + 1)
    } else {
        unary(ts, p)
    }
}

/// Binary level `level`: equality → comparison ( ( "!=" | "==" ) comparison )*,
/// and likewise for comparison, term and factor.
#[verifier::opaque]
pub open spec fn binary(ts: Seq<TokenModel>, p: nat, level: nat) -> Parsed<ExprModel>
    decreases ts.len() - p, 2 * (5 - level) + 2,
    when 1 <= level <= 4
{
    if p > ts.len() {
        stalled()
    } else {
        match operand(ts, p, level) {
            Err(e) => Err(e),
            Ok((left, q)) => if !progressed(ts, p, q) { stalled() } else { binary_rest(ts, q, level, left) },
        }
    }
}

#[verifier::opaque]
pub open spec fn binary_rest(ts: Seq<TokenModel>, p: nat, level: nat, left: ExprModel) -> Parsed<ExprModel>
    decreases ts.len() - p, 2 * (5 - level) + 2,
    when 1 <= level <= 4
{
    if p > ts.len() {
        stalled()
    } else if !at_end(ts, p) && is_level_kind(level, kind_at(ts, p)) {
        let op = binary_op_of(kind_at(ts, p));
        match operand(ts, p + 1, level) {
            Err(e) => Err(e),
            Ok((right, q)) => if !progressed(ts, p, q) {
                stalled()
            } else {
                binary_rest(ts, q, level, ExprModel::Binary(Box::new(left), op, Box::new(right)))
            },
        }
    } else {
        Ok((left, p))
    }
}

/// unary → ( "!" | "-" ) unary | primary
#[verifier::opaque]
pub open spec fn unary(ts: Seq<TokenModel>, p: nat) -> Parsed<ExprModel>
    decreases ts.len() - p, 2nat,
{
    if p > ts.len() {
        stalled()
    } else if check(ts, p, TokenType::Bang) || check(ts, p, TokenType::Minus) {
        let op = if kind_at(ts, p) == TokenType::Bang { UnaryOp::Bang } else { UnaryOp::Minus };
        match unary(ts, p + 1) {
            Err(e) => Err(e),
            Ok((x, q)) => Ok((ExprModel::Unary(op, Box::new(x)), q)),
        }
    } else {
        primary(ts, p)
    }
}

/// primary → "false" | "true" | "nil" | NUMBER | STRING | IDENTIFIER | "(" expression ")"
#[verifier::opaque]
pub open spec fn primary(ts: Seq<TokenModel>, p: nat) -> Parsed<ExprModel>
    decreases ts.len() - p, 1nat,
{
    if p > ts.len() {
        stalled()
    } else if check(ts, p, TokenType::False) {
        Ok((ExprModel::Literal(LitModel::False), p + 1))
    } else if check(ts, p, TokenType::True) {
        Ok((ExprModel::Literal(LitModel::True), p + 1))
    } else if check(ts, p, TokenType::Nil) {
        Ok((ExprModel::Literal(LitModel::Nil), p + 1))
    } else if check(ts, p, TokenType::Number) || check(ts, p, TokenType::String) {
        match ts[p as int].literal {
            Some(LiteralModel::Number(n)) => Ok((ExprModel::Literal(LitModel::Number(n)), p + 1)),
            Some(LiteralModel::Str(s)) => Ok((ExprModel::Literal(LitModel::Str(s)), p + 1)),
            _ => Err(ParseError::UnexpectedTokenError(kind_at(ts, p))),
        }
    } else if check(ts, p, TokenType::Identifier) {
        Ok((ExprModel::Variable(ts[p as int]), p + 1))
    } else if check(ts, p, TokenType::LeftParen) {
        match expression(ts, p + 1) {
            Err(e) => Err(e),
            Ok((x, q)) => if check(ts, q, TokenType::RightParen) {
                Ok((ExprModel::Grouping(Box::new(x)), q + 1))
            } else {
                expected(ts, q, Expectation::ParenAfterExpression)
            },
        }
    } else {
        Err(ParseError::UnexpectedTokenError(kind_at(ts, p)))
    }
}

/// program → declaration* EOF: the statements from `p` to the end.
#[verifier::opaque]
pub open spec fn program(ts: Seq<TokenModel>, p: nat) -> Result<Seq<StmtModel>, ParseError>
    decreases ts.len() - p,
{
    if p > ts.len() || at_end(ts, p) {
        Ok(Seq::empty())
    } else {
        match declaration(ts, p) {
            Err(e) => Err(e),
            Ok((s, q)) => if !progressed(ts, p, q) {
                Err(ParseError::UnexpectedTokenError(TokenType::EOF))
            } else {
                match program(ts, q) {
                    Err(e) => Err(e),
                    Ok(rest) => Ok(seq![s] + rest),
                }
            },
        }
    }
}

/// `r`, with reading stopped at `q`, is what the parse `s` describes.
pub open spec fn agrees<T: View>(r: Result<T, ParseError>, q: usize, s: Parsed<T::V>) -> bool {
    match s {
        Ok((v, q2)) => r is Ok && r->Ok_0@ == v && q as nat == q2,
        Err(e) => r is Err && r->Err_0 == e,
    }
}

pub open spec fn agrees_list(r: Result<Vec<Statement>, ParseError>, q: usize, s: Parsed<Seq<StmtModel>>) -> bool {
    match s {
        Ok((v, q2)) => r is Ok && stmts_view(r->Ok_0@) == v && q as nat == q2,
        Err(e) => r is Err && r->Err_0 == e,
    }
}

pub proof fn lemma_stmts_view_push(ss: Seq<Statement>, s: Statement)
    ensures
        stmts_view(ss.push(s)) == stmts_view(ss).push(s@),
{
    assert(ss.push(s).drop_last() =~= ss);
}

pub proof fn lemma_stmts_view_pair(a: Statement, b: Statement)
    ensures
        stmts_view(seq![a, b]) == seq![a@, b@],
{
    lemma_stmts_view_push(Seq::empty(), a);
    assert(Seq::<Statement>::empty().push(a) =~= seq![a]);
    lemma_stmts_view_push(seq![a], b);
    assert(seq![a].push(b) =~= seq![a, b]);
    assert(stmts_view(Seq::<Statement>::empty()) =~= Seq::<StmtModel>::empty());
    assert(stmts_view(seq![a, b]) =~= seq![a@, b@]);
}

fn pair(a: Statement, b: Statement) -> (r: Vec<Statement>)
    ensures
        stmts_view(r@) == seq![a@, b@],
{
    let mut v: Vec<Statement> = Vec::new();
    v.push(a);
    v.push(b);
    proof {
        lemma_stmts_view_pair(v@[0], v@[1]);
        assert(v@ =~= seq![v@[0], v@[1]]);
    }
    v
}

pub open spec fn option_expr_view(o: Option<Expr>) -> Option<ExprModel> {
    match o {
        Some(e) => Some(e@),
        None => None,
    }
}

pub open spec fn option_stmt_view(o: Option<Statement>) -> Option<StmtModel> {
    match o {
        Some(s) => Some(s@),
        None => None,
    }
}

/// Reads tokens into statements.
pub struct Parser {
    pub tokens: Vec<Token>,
    pub current: usize,
}

impl Default for Parser {
    fn default() -> (r: Parser)
        ensures
            r.tokens@ == Seq::<Token>::empty(),
            r.current == 0,
    {
        Parser { tokens: Vec::new(), current: 0 }
    }
}

impl Parser {
    pub open spec fn token_models(&self) -> Seq<TokenModel> {
        tokens_view(self.tokens@)
    }

    /// Parses declarations up to the end-of-input token.
    #[verifier::spinoff_prover]
    #[verifier::rlimit(40)]
    pub fn parse(&mut self) -> (r: Result<Vec<Statement>, ParseError>)
        ensures
            final(self).tokens == old(self).tokens,
            match program(old(self).token_models(), old(self).current as nat) {
                Ok(ss) => r is Ok && stmts_view(r->Ok_0@) == ss,
                Err(e) => r is Err && r->Err_0 == e,
            },
    {
        proof {
            reveal(program);
        }
        let ghost ts = self.token_models();
        let mut statements: Vec<Statement> = Vec::new();
        if self.current > self.tokens.len() {
            return Ok(statements);
        }
        let ghost start = self.current as nat;
        assert(stmts_view(statements@) =~= Seq::<StmtModel>::empty());
        while !self.is_at_end()
            invariant
                self.tokens == old(self).tokens,
                ts == self.token_models(),
                start == old(self).current,
                self.current <= self.tokens.len(),
                program(ts, start) == match program(ts, self.current as nat) {
                    Ok(rest) => Ok(stmts_view(statements@) + rest),
                    Err(e) => Err(e),
                },
            decreases self.tokens.len() - self.current,
        {
            proof {
                reveal(program);
            }
            let ghost p = self.current as nat;
            assert(program(ts, p) == match declaration(ts, p) {
                Err(e) => Err(e),
                Ok((s, q)) => if !progressed(ts, p, q) {
                    Err(ParseError::UnexpectedTokenError(TokenType::EOF))
                } else {
                    match program(ts, q) {
                        Err(e) => Err(e),
                        Ok(rest) => Ok(seq![s] + rest),
                    }
                },
            });
            match self.declaration() {
                Ok(s) => {
                    proof {
                        lemma_stmts_view_push(statements@, s);
                        match program(ts, self.current as nat) {
                            Ok(rest) => {
                                assert(stmts_view(statements@) + (seq![s@] + rest) =~= stmts_view(statements@).push(s@) + rest);
                            },
                            Err(e) => {},
                        }
                    }
                    statements.push(s);
                },
                Err(e) => {
                    return Err(e);
                },
            }
        }
        assert(stmts_view(statements@) + Seq::<StmtModel>::empty() =~= stmts_view(statements@));
        Ok(statements)
    }

    #[verifier::spinoff_prover]
    #[verifier::rlimit(40)]
    fn declaration(&mut self) -> (r: Result<Statement, ParseError>)
        requires
            old(self).current <= old(self).tokens.len(),
        ensures
            final(self).tokens == old(self).tokens,
            agrees(r, final(self).current, declaration(old(self).token_models(), old(self).current as nat)),
            r is Ok ==> old(self).current < final(self).current <= final(self).tokens.len(),
        decreases old(self).tokens.len() - old(self).current, 30nat,
    {
        proof {
            reveal(declaration);
        }
        if self.match_token_type(TokenType::Var) {
            self.var_declaration()
        } else {
            self.statement()
        }
    }

    #[verifier::spinoff_prover]
    fn consume_identifier(&mut self) -> (r: Result<Token, ParseError>)
        requires
            old(self).current <= old(self).tokens.len(),
        ensures
            final(self).tokens == old(self).tokens,
            check(old(self).token_models(), old(self).current as nat, TokenType::Identifier) ==> {
                &&& r is Ok
                &&& r->Ok_0@ == old(self).token_models()[old(self).current as int]
                &&& final(self).current == old(self).current + 1
            },
            !check(old(self).token_models(), old(self).current as nat, TokenType::Identifier) ==> {
                &&& r is Err
                &&& r->Err_0 == ParseError::ExpectedToken(kind_at(old(self).token_models(), old(self).current as nat), Expectation::VariableName)
            },
    {
        if self.check(TokenType::Identifier) {
            let t = self.tokens[self.current].duplicate();
            self.advance();
            Ok(t)
        } else {
            Err(ParseError::ExpectedToken(self.peek_kind(), Expectation::VariableName))
        }
    }

    #[verifier::spinoff_prover]
    #[verifier::rlimit(40)]
    fn var_declaration(&mut self) -> (r: Result<Statement, ParseError>)
        requires
            old(self).current <= old(self).tokens.len(),
        ensures
            final(self).tokens == old(self).tokens,
            agrees(r, final(self).current, var_declaration(old(self).token_models(), old(self).current as nat)),
            r is Ok ==> old(self).current < final(self).current <= final(self).tokens.len(),
        decreases old(self).tokens.len() - old(self).current, 29nat,
    {
        proof {
            reveal(var_declaration);
        }
        let name = match self.consume_identifier() {
            Ok(t) => t,
            Err(e) => return Err(e),
        };
        let initializer = if self.match_token_type(TokenType::Equal) {
            match self.expression() {
                Ok(e) => Some(e),
                Err(e) => return Err(e),
            }
        } else {
            None
        };
        match self.consume(TokenType::Semicolon, Expectation::SemicolonAfterVariable) {
            Ok(()) => {},
            Err(e) => return Err(e),
        }
        Ok(Statement::Var(name, initializer))
    }

    #[verifier::spinoff_prover]
    #[verifier::rlimit(40)]
    fn statement(&mut self) -> (r: Result<Statement, ParseError>)
        requires
            old(self).current <= old(self).tokens.len(),
        ensures
            final(self).tokens == old(self).tokens,
            agrees(r, final(self).current, statement(old(self).token_models(), old(self).current as nat)),
            r is Ok ==> old(self).current < final(self).current <= final(self).tokens.len(),
        decreases old(self).tokens.len() - old(self).current, 28nat,
    {
        proof {
            reveal(statement);
        }
        if self.match_token_type(TokenType::For) {
            return self.for_statement();
        }
        if self.match_token_type(TokenType::If) {
            return self.if_statement();
        }
        if self.match_token_type(TokenType::Print) {
            return self.print_statement();
        }
        if self.match_token_type(TokenType::While) {
            return self.while_statement();
        }
        if self.match_token_type(TokenType::LeftBrace) {
            return match self.block() {
                Ok(ss) => Ok(Statement::Block(ss)),
                Err(e) => Err(e),
            };
        }
        self.expression_statement()
    }

    #[verifier::spinoff_prover]
    #[verifier::rlimit(40)]
    fn for_statement(&mut self) -> (r: Result<Statement, ParseError>)
        requires
            old(self).current <= old(self).tokens.len(),
        ensures
            final(self).tokens == old(self).tokens,
            agrees(r, final(self).current, for_statement(old(self).token_models(), old(self).current as nat)),
            r is Ok ==> old(self).current < final(self).current <= final(self).tokens.len(),
        decreases old(self).tokens.len() - old(self).current, 27nat,
    {
        proof {
            reveal(for_statement);
        }
        let ghost ts = self.token_models();
        let ghost p = self.current as nat;
        match self.consume(TokenType::LeftParen, Expectation::ParenAfterFor) {
            Ok(()) => {},
            Err(e) => return Err(e),
        }
        let initializer = if self.match_token_type(TokenType::Semicolon) {
            None
        } else if self.match_token_type(TokenType::Var) {
            match self.var_declaration() {
                Ok(s) => Some(s),
                Err(e) => return Err(e),
            }
        } else {
            match self.expression_statement() {
                Ok(s) => Some(s),
                Err(e) => return Err(e),
            }
        };
        let ghost q1 = self.current as nat;
        let condition = if self.check(TokenType::Semicolon) {
            None
        } else {
            match self.expression() {
                Ok(c) => Some(c),
                Err(e) => return Err(e),
            }
        };
        match self.consume(TokenType::Semicolon, Expectation::SemicolonAfterLoopCondition) {
            Ok(()) => {},
            Err(e) => return Err(e),
        }
        let increment = if self.check(TokenType::RightParen) {
            None
        } else {
            match self.expression() {
                Ok(c) => Some(c),
                Err(e) => return Err(e),
            }
        };
        match self.consume(TokenType::RightParen, Expectation::ParenAfterForClauses) {
            Ok(()) => {},
            Err(e) => return Err(e),
        }
        let body = match self.statement() {
            Ok(s) => s,
            Err(e) => return Err(e),
        };
        let ghost init_m = option_stmt_view(initializer);
        let ghost cond_m = option_expr_view(condition);
        let ghost incr_m = option_expr_view(increment);
        let ghost body_m = body@;
        let body = match increment {
            Some(incr) => Statement::Block(pair(body, Statement::Expression(incr))),
            None => body,
        };
        assert(body@ == match incr_m {
            Some(i) => StmtModel::Block(seq![body_m, StmtModel::Expression(i)]),
            None => body_m,
        });
        let condition = match condition {
            Some(c) => c,
            None => Expr::Literal(Literal::True),
        };
        assert(condition@ == match cond_m {
            Some(c) => c,
            None => ExprModel::Literal(LitModel::True),
        });
        let w = Statement::While(condition, Box::new(body));
        assert(w@ == StmtModel::While(condition@, Box::new(body@)));
        let r = match initializer {
            Some(init) => Statement::Block(pair(init, w)),
            None => w,
        };
        assert(r@ == match init_m {
            Some(s) => StmtModel::Block(seq![s, w@]),
            None => w@,
        });
        assert(r@ == desugared_for(init_m, cond_m, incr_m, body_m));
        Ok(r)
    }

    #[verifier::spinoff_prover]
    #[verifier::rlimit(40)]
    fn while_statement(&mut self) -> (r: Result<Statement, ParseError>)
        requires
            old(self).current <= old(self).tokens.len(),
        ensures
            final(self).tokens == old(self).tokens,
            agrees(r, final(self).current, while_statement(old(self).token_models(), old(self).current as nat)),
            r is Ok ==> old(self).current < final(self).current <= final(self).tokens.len(),
        decreases old(self).tokens.len() - old(self).current, 27nat,
    {
        proof {
            reveal(while_statement);
        }
        match self.consume(TokenType::LeftParen, Expectation::ParenAfterWhile) {
            Ok(()) => {},
            Err(e) => return Err(e),
        }
        let condition = match self.expression() {
            Ok(c) => c,
            Err(e) => return Err(e),
        };
        match self.consume(TokenType::RightParen, Expectation::ParenAfterCondition) {
            Ok(()) => {},
            Err(e) => return Err(e),
        }
        let body = match self.statement() {
            Ok(s) => s,
            Err(e) => return Err(e),
        };
        Ok(Statement::While(condition, Box::new(body)))
    }

    #[verifier::spinoff_prover]
    #[verifier::rlimit(40)]
    fn if_statement(&mut self) -> (r: Result<Statement, ParseError>)
        requires
            old(self).current <= old(self).tokens.len(),
        ensures
            final(self).tokens == old(self).tokens,
            agrees(r, final(self).current, if_statement(old(self).token_models(), old(self).current as nat)),
            r is Ok ==> old(self).current < final(self).current <= final(self).tokens.len(),
        decreases old(self).tokens.len() - old(self).current, 27nat,
    {
        proof {
            reveal(if_statement);
        }
        match self.consume(TokenType::LeftParen, Expectation::ParenAfterIf) {
            Ok(()) => {},
            Err(e) => return Err(e),
        }
        let condition = match self.expression() {
            Ok(c) => c,
            Err(e) => return Err(e),
        };
        match self.consume(TokenType::RightParen, Expectation::ParenAfterIfCondition) {
            Ok(()) => {},
            Err(e) => return Err(e),
        }
        let then_branch = match self.statement() {
            Ok(s) => s,
            Err(e) => return Err(e),
        };
        let else_branch = if self.match_token_type(TokenType::Else) {
            match self.statement() {
                Ok(s) => Some(Box::new(s)),
                Err(e) => return Err(e),
            }
        } else {
            None
        };
        Ok(Statement::If(condition, Box::new(then_branch), else_branch))
    }

    #[verifier::spinoff_prover]
    #[verifier::rlimit(40)]
    fn block(&mut self) -> (r: Result<Vec<Statement>, ParseError>)
        requires
            old(self).current <= old(self).tokens.len(),
        ensures
            final(self).tokens == old(self).tokens,
            agrees_list(r, final(self).current, block(old(self).token_models(), old(self).current as nat)),
            r is Ok ==> old(self).current < final(self).current <= final(self).tokens.len(),
        decreases old(self).tokens.len() - old(self).current, 31nat,
    {
        proof {
            reveal(block);
        }
        let ghost ts = self.token_models();
        let ghost start = self.current as nat;
        let mut statements: Vec<Statement> = Vec::new();
        assert(stmts_view(statements@) =~= Seq::<StmtModel>::empty());
        while !self.check(TokenType::RightBrace) && !self.is_at_end()
            invariant
                self.tokens == old(self).tokens,
                ts == self.token_models(),
                start <= self.current <= self.tokens.len(),
                start == old(self).current,
                block(ts, start) == match block(ts, self.current as nat) {
                    Ok((rest, r)) => Ok((stmts_view(statements@) + rest, r)),
                    Err(e) => Err(e),
                },
            decreases self.tokens.len() - self.current,
        {
            proof {
                reveal(block);
            }
            match self.declaration() {
                Ok(s) => {
                    proof {
                        lemma_stmts_view_push(statements@, s);
                        match block(ts, self.current as nat) {
                            Ok((rest, r)) => {
                                assert(stmts_view(statements@) + (seq![s@] + rest) =~= stmts_view(statements@).push(s@) + rest);
                            },
                            Err(e) => {},
                        }
                    }
                    statements.push(s);
                },
                Err(e) => {
                    return Err(e);
                },
            }
        }
        match self.consume(TokenType::RightBrace, Expectation::BraceAfterBlock) {
            Ok(()) => {},
            Err(e) => return Err(e),
        }
        assert(stmts_view(statements@) + Seq::<StmtModel>::empty() =~= stmts_view(statements@));
        Ok(statements)
    }

    #[verifier::spinoff_prover]
    #[verifier::rlimit(40)]
    fn print_statement(&mut self) -> (r: Result<Statement, ParseError>)
        requires
            old(self).current <= old(self).tokens.len(),
        ensures
            final(self).tokens == old(self).tokens,
            agrees(r, final(self).current, print_statement(old(self).token_models(), old(self).current as nat)),
            r is Ok ==> old(self).current < final(self).current <= final(self).tokens.len(),
        decreases old(self).tokens.len() - old(self).current, 26nat,
    {
        proof {
            reveal(print_statement);
        }
        let value = match self.expression() {
            Ok(e) => e,
            Err(e) => return Err(e),
        };
        match self.consume(TokenType::Semicolon, Expectation::SemicolonAfterValue) {
            Ok(()) => {},
            Err(e) => return Err(e),
        }
        Ok(Statement::Print(value))
    }

    #[verifier::spinoff_prover]
    #[verifier::rlimit(40)]
    fn expression_statement(&mut self) -> (r: Result<Statement, ParseError>)
        requires
            old(self).current <= old(self).tokens.len(),
        ensures
            final(self).tokens == old(self).tokens,
            agrees(r, final(self).current, expression_statement(old(self).token_models(), old(self).current as nat)),
            r is Ok ==> old(self).current < final(self).current <= final(self).tokens.len(),
        decreases old(self).tokens.len() - old(self).current, 26nat,
    {
        proof {
            reveal(expression_statement);
        }
        let expr = match self.expression() {
            Ok(e) => e,
            Err(e) => return Err(e),
        };
        match self.consume(TokenType::Semicolon, Expectation::SemicolonAfterExpression) {
            Ok(()) => {},
            Err(e) => return Err(e),
        }
        Ok(Statement::Expression(expr))
    }

    #[verifier::spinoff_prover]
    fn expression(&mut self) -> (r: Result<Expr, ParseError>)
        requires
            old(self).current <= old(self).tokens.len(),
        ensures
            final(self).tokens == old(self).tokens,
            agrees(r, final(self).current, expression(old(self).token_models(), old(self).current as nat)),
            r is Ok ==> old(self).current < final(self).current <= final(self).tokens.len(),
        decreases old(self).tokens.len() - old(self).current, 25nat,
    {
        proof {
            reveal(expression);
        }
        self.assignment()
    }

    #[verifier::spinoff_prover]
    #[verifier::rlimit(40)]
    fn assignment(&mut self) -> (r: Result<Expr, ParseError>)
        requires
            old(self).current <= old(self).tokens.len(),
        ensures
            final(self).tokens == old(self).tokens,
            agrees(r, final(self).current, assignment(old(self).token_models(), old(self).current as nat)),
            r is Ok ==> old(self).current < final(self).current <= final(self).tokens.len(),
        decreases old(self).tokens.len() - old(self).current, 24nat,
    {
        proof {
            reveal(assignment);
        }
        let expr = match self.or() {
            Ok(e) => e,
            Err(e) => return Err(e),
        };
        if self.match_token_type(TokenType::Equal) {
            match expr {
                Expr::Variable(name) => {
                    let value = match self.assignment() {
                        Ok(v) => v,
                        Err(e) => return Err(e),
                    };
                    Ok(Expr::Assign(name, Box::new(value)))
                },
                _ => Err(ParseError::UnexpectedTokenError(TokenType::Equal)),
            }
        } else {
            Ok(expr)
        }
    }

    #[verifier::spinoff_prover]
    #[verifier::rlimit(40)]
    fn or(&mut self) -> (r: Result<Expr, ParseError>)
        requires
            old(self).current <= old(self).tokens.len(),
        ensures
            final(self).tokens == old(self).tokens,
            agrees(r, final(self).current, or(old(self).token_models(), old(self).current as nat)),
            r is Ok ==> old(self).current < final(self).current <= final(self).tokens.len(),
        decreases old(self).tokens.len() - old(self).current, 23nat,
    {
        proof {
            reveal(or);
        }
        let ghost ts = self.token_models();
        let ghost start = self.current as nat;
        let mut expr = match self.and() {
            Ok(e) => e,
            Err(e) => return Err(e),
        };
        proof {
            reveal(or_rest);
        }
        while self.check(TokenType::Or)
            invariant
                self.tokens == old(self).tokens,
                ts == self.token_models(),
                start < self.current <= self.tokens.len(),
                start == old(self).current,
                or(ts, start) == or_rest(ts, self.current as nat, expr@),
            decreases self.tokens.len() - self.current,
        {
            proof {
                reveal(or_rest);
            }
            let operator = Parser::token_to_logical_operator(&self.tokens[self.current]);
            self.advance();
            let right = match self.and() {
                Ok(e) => e,
                Err(e) => return Err(e),
            };
            match operator {
                Ok(op) => {
                    expr = Expr::Logical(Box::new(expr), op, Box::new(right));
                },
                Err(e) => return Err(e),
            }
        }
        Ok(expr)
    }

    #[verifier::spinoff_prover]
    #[verifier::rlimit(40)]
    fn and(&mut self) -> (r: Result<Expr, ParseError>)
        requires
            old(self).current <= old(self).tokens.len(),
        ensures
            final(self).tokens == old(self).tokens,
            agrees(r, final(self).current, and(old(self).token_models(), old(self).current as nat)),
            r is Ok ==> old(self).current < final(self).current <= final(self).tokens.len(),
        decreases old(self).tokens.len() - old(self).current, 22nat,
    {
        proof {
            reveal(and);
        }
        let ghost ts = self.token_models();
        let ghost start = self.current as nat;
        let mut expr = match self.equality() {
            Ok(e) => e,
            Err(e) => return Err(e),
        };
        proof {
            reveal(and_rest);
        }
        while self.check(TokenType::And)
            invariant
                self.tokens == old(self).tokens,
                ts == self.token_models(),
                start < self.current <= self.tokens.len(),
                start == old(self).current,
                and(ts, start) == and_rest(ts, self.current as nat, expr@),
            decreases self.tokens.len() - self.current,
        {
            proof {
                reveal(and_rest);
            }
            let operator = Parser::token_to_logical_operator(&self.tokens[self.current]);
            self.advance();
            let right = match self.equality() {
                Ok(e) => e,
                Err(e) => return Err(e),
            };
            match operator {
                Ok(op) => {
                    expr = Expr::Logical(Box::new(expr), op, Box::new(right));
                },
                Err(e) => return Err(e),
            }
        }
        Ok(expr)
    }

    fn match_level_token(&self, level: u8) -> (r: bool)
        requires
            1 <= level <= 4,
        ensures
            r == (!at_end(self.token_models(), self.current as nat) && is_level_kind(level as nat, kind_at(self.token_models(), self.current as nat))),
    {
        if level == 1 {
            self.check(TokenType::BangEqual) || self.check(TokenType::EqualEqual)
        } else if level == 2 {
            self.check(TokenType::Greater) || self.check(TokenType::GreaterEqual) || self.check(TokenType::Less)
                || self.check(TokenType::LessEqual)
        } else if level == 3 {
            self.check(TokenType::Minus) || self.check(TokenType::Plus)
        } else {
            self.check(TokenType::Slash) || self.check(TokenType::Star)
        }
    }

    /// One binary level: its operands, joined left to right by its operators.
    #[verifier::spinoff_prover]
    #[verifier::rlimit(40)]
    fn binary_level(&mut self, level: u8) -> (r: Result<Expr, ParseError>)
        requires
            old(self).current <= old(self).tokens.len(),
            1 <= level <= 4,
        ensures
            final(self).tokens == old(self).tokens,
            agrees(r, final(self).current, binary(old(self).token_models(), old(self).current as nat, level as nat)),
            r is Ok ==> old(self).current < final(self).current <= final(self).tokens.len(),
        decreases old(self).tokens.len() - old(self).current, 3 * (5 - level) + 3,
    {
        proof {
            reveal(binary);
        }
        let ghost ts = self.token_models();
        let ghost start = self.current as nat;
        let mut expr = match self.operand(level) {
            Ok(e) => e,
            Err(e) => return Err(e),
        };
        proof {
            reveal(binary_rest);
        }
        while self.match_level_token(level)
            invariant
                self.tokens == old(self).tokens,
                ts == self.token_models(),
                start < self.current <= self.tokens.len(),
                start == old(self).current,
                1 <= level <= 4,
                binary(ts, start, level as nat) == binary_rest(ts, self.current as nat, level as nat, expr@),
            decreases self.tokens.len() - self.current,
        {
            proof {
                reveal(binary_rest);
            }
            let operator = Parser::token_to_binary_operator(&self.tokens[self.current]);
            self.advance();
            let right = match self.operand(level) {
                Ok(e) => e,
                Err(e) => return Err(e),
            };
            match operator {
                Ok(op) => {
                    expr = Expr::Binary(Box::new(expr), op, Box::new(right));
                },
                Err(e) => return Err(e),
            }
        }
        Ok(expr)
    }

    #[verifier::spinoff_prover]
    fn operand(&mut self, level: u8) -> (r: Result<Expr, ParseError>)
        requires
            old(self).current <= old(self).tokens.len(),
            1 <= level <= 4,
        ensures
            final(self).tokens == old(self).tokens,
            agrees(r, final(self).current, operand(old(self).token_models(), old(self).current as nat, level as nat)),
            r is Ok ==> old(self).current < final(self).current <= final(self).tokens.len(),
        decreases old(self).tokens.len() - old(self).current, 3 * (5 - level) + 2,
    {
        proof {
            reveal(operand);
        }
        if level == 1 {
            self.comparison()
        } else if level == 2 {
            self.term()
        } else if level == 3 {
            self.factor()
        } else {
            self.unary()
        }
    }

    /// equality → comparison ( ( "!=" | "==" ) comparison )*
    #[verifier::spinoff_prover]
    fn equality(&mut self) -> (r: Result<Expr, ParseError>)
        requires
            old(self).current <= old(self).tokens.len(),
        ensures
            final(self).tokens == old(self).tokens,
            agrees(r, final(self).current, binary(old(self).token_models(), old(self).current as nat, 1)),
            r is Ok ==> old(self).current < final(self).current <= final(self).tokens.len(),
        decreases old(self).tokens.len() - old(self).current, 16nat,
    {
        self.binary_level(1)
    }

    /// comparison → term ( ( ">" | ">=" | "<" | "<=" ) term )*
    #[verifier::spinoff_prover]
    fn comparison(&mut self) -> (r: Result<Expr, ParseError>)
        requires
            old(self).current <= old(self).tokens.len(),
        ensures
            final(self).tokens == old(self).tokens,
            agrees(r, final(self).current, binary(old(self).token_models(), old(self).current as nat, 2)),
            r is Ok ==> old(self).current < final(self).current <= final(self).tokens.len(),
        decreases old(self).tokens.len() - old(self).current, 13nat,
    {
        self.binary_level(2)
    }

    /// term → factor ( ( "-" | "+" ) factor )*
    #[verifier::spinoff_prover]
    fn term(&mut self) -> (r: Result<Expr, ParseError>)
        requires
            old(self).current <= old(self).tokens.len(),
        ensures
            final(self).tokens == old(self).tokens,
            agrees(r, final(self).current, binary(old(self).token_models(), old(self).current as nat, 3)),
            r is Ok ==> old(self).current < final(self).current <= final(self).tokens.len(),
        decreases old(self).tokens.len() - old(self).current, 10nat,
    {
        self.binary_level(3)
    }

    /// factor → unary ( ( "/" | "*" ) unary )*
    #[verifier::spinoff_prover]
    fn factor(&mut self) -> (r: Result<Expr, ParseError>)
        requires
            old(self).current <= old(self).tokens.len(),
        ensures
            final(self).tokens == old(self).tokens,
            agrees(r, final(self).current, binary(old(self).token_models(), old(self).current as nat, 4)),
            r is Ok ==> old(self).current < final(self).current <= final(self).tokens.len(),
        decreases old(self).tokens.len() - old(self).current, 7nat,
    {
        self.binary_level(4)
    }

    #[verifier::spinoff_prover]
    #[verifier::rlimit(40)]
    fn unary(&mut self) -> (r: Result<Expr, ParseError>)
        requires
            old(self).current <= old(self).tokens.len(),
        ensures
            final(self).tokens == old(self).tokens,
            agrees(r, final(self).current, unary(old(self).token_models(), old(self).current as nat)),
            r is Ok ==> old(self).current < final(self).current <= final(self).tokens.len(),
        decreases old(self).tokens.len() - old(self).current, 2nat,
    {
        proof {
            reveal(unary);
        }
        if self.check(TokenType::Bang) || self.check(TokenType::Minus) {
            let operator = Parser::token_to_unary_operator(&self.tokens[self.current]);
            self.advance();
            let right = match self.unary() {
                Ok(e) => e,
                Err(e) => return Err(e),
            };
            return match operator {
                Ok(op) => Ok(Expr::Unary(op, Box::new(right))),
                Err(e) => Err(e),
            };
        }
        self.primary()
    }

    #[verifier::spinoff_prover]
    #[verifier::rlimit(40)]
    fn primary(&mut self) -> (r: Result<Expr, ParseError>)
        requires
            old(self).current <= old(self).tokens.len(),
        ensures
            final(self).tokens == old(self).tokens,
            agrees(r, final(self).current, primary(old(self).token_models(), old(self).current as nat)),
            r is Ok ==> old(self).current < final(self).current <= final(self).tokens.len(),
            r is Err && kind_at(old(self).token_models(), old(self).current as nat) != TokenType::LeftParen
                ==> final(self).current == old(self).current,
        decreases old(self).tokens.len() - old(self).current, 1nat,
    {
        proof {
            reveal(primary);
        }
        if self.match_token_type(TokenType::False) {
            return Ok(Expr::Literal(Literal::False));
        }
        if self.match_token_type(TokenType::True) {
            return Ok(Expr::Literal(Literal::True));
        }
        if self.match_token_type(TokenType::Nil) {
            return Ok(Expr::Literal(Literal::Nil));
        }
        if self.check(TokenType::Number) || self.check(TokenType::String) {
            let kind = self.peek_kind();
            let lit = match &self.tokens[self.current].literal {
                Some(crate::token::token::Literal::Number(n)) => Literal::Number(*n),
                Some(crate::token::token::Literal::Str(s)) => Literal::Str(s.clone()),
                _ => return Err(ParseError::UnexpectedTokenError(kind)),
            };
            self.advance();
            return Ok(Expr::Literal(lit));
        }
        if self.check(TokenType::Identifier) {
            let t = self.tokens[self.current].duplicate();
            self.advance();
            return Ok(Expr::Variable(t));
        }
        if self.match_token_type(TokenType::LeftParen) {
            let expr = match self.expression() {
                Ok(e) => e,
                Err(e) => return Err(e),
            };
            return match self.consume(TokenType::RightParen, Expectation::ParenAfterExpression) {
                Ok(()) => Ok(Expr::Grouping(Box::new(expr))),
                Err(e) => Err(e),
            };
        }
        Err(ParseError::UnexpectedTokenError(self.peek_kind()))
    }

    /// Skips tokens after a mismatch up to the first likely start of a
    /// statement after the current token: just past a `;`, before a keyword
    /// that begins a declaration or a statement, or at the end.
    pub fn synchronize(&mut self)
        requires
            old(self).current <= old(self).tokens.len(),
        ensures
            final(self).tokens == old(self).tokens,
            final(self).current <= final(self).tokens.len(),
            at_end(old(self).token_models(), old(self).current as nat) ==> final(self).current == old(self).current,
            !at_end(old(self).token_models(), old(self).current as nat) ==> {
                &&& final(self).current > old(self).current
                &&& resumes_at(old(self).token_models(), final(self).current as nat)
                &&& forall|k: nat| old(self).current < k < final(self).current ==> !resumes_at(old(self).token_models(), k)
            },
    {
        let ghost ts = self.token_models();
        let ghost start = self.current as nat;
        let mut previous_semicolon = self.check(TokenType::Semicolon);
        if self.is_at_end() {
            return;
        }
        self.advance();
        while !self.is_at_end()
            invariant
                self.tokens == old(self).tokens,
                ts == self.token_models(),
                start == old(self).current,
                start < self.current <= self.tokens.len(),
                !at_end(ts, start),
                previous_semicolon == (kind_at(ts, (self.current - 1) as nat) == TokenType::Semicolon),
                forall|k: nat| start < k < self.current ==> !resumes_at(ts, k),
            decreases self.tokens.len() - self.current,
        {
            if previous_semicolon {
                return;
            }
            if is_statement_start_kind(self.peek_kind()) {
                return;
            }
            previous_semicolon = self.check(TokenType::Semicolon);
            self.advance();
        }
    }

    fn token_to_logical_operator(token: &Token) -> (r: Result<LogicalOp, ParseError>)
        ensures
            token.token_type == TokenType::Or ==> r == Ok::<LogicalOp, ParseError>(LogicalOp::Or),
            token.token_type == TokenType::And ==> r == Ok::<LogicalOp, ParseError>(LogicalOp::And),
            token.token_type != TokenType::Or && token.token_type != TokenType::And
                ==> r == Err::<LogicalOp, ParseError>(ParseError::UnexpectedTokenError(token.token_type)),
    {
        match token.token_type {
            TokenType::Or => Ok(LogicalOp::Or),
            TokenType::And => Ok(LogicalOp::And),
            _ => Err(ParseError::UnexpectedTokenError(token.token_type)),
        }
    }

    /// The binary operator that a token stands for.
    pub fn token_to_binary_operator(token: &Token) -> (r: Result<BinaryOp, ParseError>)
        ensures
            (is_equality_kind(token.token_type) || is_comparison_kind(token.token_type)
                || is_term_kind(token.token_type) || is_factor_kind(token.token_type))
                ==> r == Ok::<BinaryOp, ParseError>(binary_op_of(token.token_type)),
            !(is_equality_kind(token.token_type) || is_comparison_kind(token.token_type)
                || is_term_kind(token.token_type) || is_factor_kind(token.token_type))
                ==> r == Err::<BinaryOp, ParseError>(ParseError::UnexpectedTokenError(token.token_type)),
    {
        match token.token_type {
            TokenType::Plus => Ok(BinaryOp::Plus),
            TokenType::Minus => Ok(BinaryOp::Minus),
            TokenType::Star => Ok(BinaryOp::Star),
            TokenType::Slash => Ok(BinaryOp::Slash),
            TokenType::EqualEqual => Ok(BinaryOp::EqualEqual),
            TokenType::BangEqual => Ok(BinaryOp::BangEqual),
            TokenType::Less => Ok(BinaryOp::Less),
            TokenType::LessEqual => Ok(BinaryOp::LessEqual),
            TokenType::Greater => Ok(BinaryOp::Greater),
            TokenType::GreaterEqual => Ok(BinaryOp::GreaterEqual),
            _ => Err(ParseError::UnexpectedTokenError(token.token_type)),
        }
    }

    /// The unary operator that a token stands for.
    pub fn token_to_unary_operator(token: &Token) -> (r: Result<UnaryOp, ParseError>)
        ensures
            token.token_type == TokenType::Minus ==> r == Ok::<UnaryOp, ParseError>(UnaryOp::Minus),
            token.token_type == TokenType::Bang ==> r == Ok::<UnaryOp, ParseError>(UnaryOp::Bang),
            token.token_type != TokenType::Minus && token.token_type != TokenType::Bang
                ==> r == Err::<UnaryOp, ParseError>(ParseError::UnexpectedTokenError(token.token_type)),
    {
        match token.token_type {
            TokenType::Minus => Ok(UnaryOp::Minus),
            TokenType::Bang => Ok(UnaryOp::Bang),
            _ => Err(ParseError::UnexpectedTokenError(token.token_type)),
        }
    }

    fn consume(&mut self, token_type: TokenType, expectation: Expectation) -> (r: Result<(), ParseError>)
        requires
            old(self).current <= old(self).tokens.len(),
        ensures
            final(self).tokens == old(self).tokens,
            check(old(self).token_models(), old(self).current as nat, token_type) ==> r is Ok
                && final(self).current == old(self).current + 1,
            !check(old(self).token_models(), old(self).current as nat, token_type) ==> r == Err::<(), ParseError>(
                ParseError::ExpectedToken(kind_at(old(self).token_models(), old(self).current as nat), expectation),
            ),
            !check(old(self).token_models(), old(self).current as nat, token_type) ==> final(self).current == old(self).current,
    {
        if self.check(token_type) {
            self.advance();
            return Ok(());
        }
        Err(ParseError::ExpectedToken(self.peek_kind(), expectation))
    }

    fn match_token_type(&mut self, token_type: TokenType) -> (r: bool)
        requires
            old(self).current <= old(self).tokens.len(),
        ensures
            final(self).tokens == old(self).tokens,
            r == check(old(self).token_models(), old(self).current as nat, token_type),
            final(self).current == if r { old(self).current + 1 } else { old(self).current as int },
    {
        if self.check(token_type) {
            self.advance();
            return true;
        }
        false
    }

    fn check(&self, token_type: TokenType) -> (r: bool)
        ensures
            r == check(self.token_models(), self.current as nat, token_type),
    {
        if self.is_at_end() {
            return false;
        }
        self.peek_kind() == token_type
    }

    fn advance(&mut self)
        requires
            old(self).current <= old(self).tokens.len(),
        ensures
            final(self).tokens == old(self).tokens,
            final(self).current == if at_end(old(self).token_models(), old(self).current as nat) {
                old(self).current as int
            } else {
                old(self).current + 1
            },
    {
        if !self.is_at_end() {
            self.current = self.current + 1;
        }
    }

    fn is_at_end(&self) -> (r: bool)
        ensures
            r == at_end(self.token_models(), self.current as nat),
    {
        self.peek_kind() == TokenType::EOF
    }

    fn peek_kind(&self) -> (r: TokenType)
        ensures
            r == kind_at(self.token_models(), self.current as nat),
    {
        if self.current < self.tokens.len() {
            self.tokens[self.current].token_type
        } else {
            TokenType::EOF
        }
    }
}

/// Where parsing may resume after a mismatch: at the end, just past a `;`,
/// or before a keyword that begins a declaration or a statement.
pub open spec fn resumes_at(ts: Seq<TokenModel>, k: nat) -> bool {
    at_end(ts, k) || (k > 0 && kind_at(ts, (k - 1) as nat) == TokenType::Semicolon) || is_statement_start(kind_at(ts, k))
}

/// The kinds that begin a declaration or a statement.
pub open spec fn is_statement_start(k: TokenType) -> bool {
    k == TokenType::Class || k == TokenType::Fun || k == TokenType::Var || k == TokenType::For
        || k == TokenType::If || k == TokenType::While || k == TokenType::Print || k == TokenType::Return
}

fn is_statement_start_kind(k: TokenType) -> (r: bool)
    ensures
        r == is_statement_start(k),
{
    match k {
        TokenType::Class | TokenType::Fun | TokenType::Var | TokenType::For | TokenType::If
        | TokenType::While | TokenType::Print | TokenType::Return => true,
        _ => false,
    }
}

} // verus!
