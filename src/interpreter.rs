//! The evaluator: statements run against the bindings of the open scopes.
//!
//! Every iteration of a `while` loop (and so of a `for` loop) spends one unit
//! of the interpreter's loop budget; a loop that finds it spent stops the
//! program with an error. This bounds every run, so that each one is a value
//! of the `exec` specification.
use vstd::prelude::*;
use crate::environment::{Bindings, assigned, defined, lookup, truncated};
use crate::expr::{BinaryOp, Expr, ExprModel, LitModel, Literal, LogicalOp, UnaryOp};
use crate::number::{
    Number, difference_parts, fits, less_parts, number_of, product_parts, quotient_parts, sum_parts,
    lemma_number_of_parts, lemma_negated_twice, negated,
};
use crate::statement::{Statement, StmtModel, lemma_stmts_view_index, stmts_view};
use crate::value::{ValueModel, print_text, truthy, values_equal};

pub use crate::environment::Environment;
pub use crate::value::Value;

verus! {

/// A runtime error.
#[derive(Debug, PartialEq, Eq)]
pub enum Error {
    RuntimeError(String),
    DivisionByZeroError,
    BudgetExhausted,
}

pub enum ErrorModel {
    Runtime(Seq<char>),
    DivisionByZero,
    BudgetExhausted,
}

impl View for Error {
    type V = ErrorModel;

    open spec fn view(&self) -> ErrorModel {
        match self {
            Error::RuntimeError(m) => ErrorModel::Runtime(m@),
            Error::DivisionByZeroError => ErrorModel::DivisionByZero,
            Error::BudgetExhausted => ErrorModel::BudgetExhausted,
        }
    }
}

pub open spec fn error_text(e: ErrorModel) -> Seq<char> {
    match e {
        ErrorModel::Runtime(m) => m,
        ErrorModel::DivisionByZero => "Tried dividing by zero!"@,
        ErrorModel::BudgetExhausted => "Loop budget exhausted."@,
    }
}

impl Error {
    /// The line written to standard error for this error.
    pub fn message(&self) -> (r: String)
        ensures
            r@ == error_text(self@),
    {
        match self {
            Error::RuntimeError(m) => m.clone(),
            Error::DivisionByZeroError => String::from_str("Tried dividing by zero!"),
            Error::BudgetExhausted => String::from_str("Loop budget exhausted."),
        }
    }
}

pub open spec fn runtime(m: Seq<char>) -> ErrorModel {
    ErrorModel::Runtime(m)
}

pub open spec fn undefined_text(name: Seq<char>) -> Seq<char> {
    "Undefined variable '"@ + name + "'."@
}

pub open spec fn operand_number_text() -> Seq<char> {
    "Operand must be a number."@
}

pub open spec fn operands_numbers_text() -> Seq<char> {
    "Operands must be numbers."@
}

pub open spec fn binary_mismatch_text() -> Seq<char> {
    "Runtime error in binary expression!"@
}

pub type Outcome = Result<ValueModel, ErrorModel>;

pub open spec fn literal_value(l: LitModel) -> ValueModel {
    match l {
        LitModel::Str(s) => ValueModel::Str(s),
        LitModel::Number(n) => ValueModel::Number(n),
        LitModel::Nil => ValueModel::Nil,
        LitModel::False => ValueModel::Bool(false),
        LitModel::True => ValueModel::Bool(true),
    }
}

/// The number with the parts `p`, as a result.
pub open spec fn number_result(p: (int, int)) -> Outcome {
    Ok(ValueModel::Number(number_of(p)))
}

pub open spec fn unary_value(op: UnaryOp, v: ValueModel) -> Outcome {
    match op {
        UnaryOp::Minus => match v {
            ValueModel::Number(n) => Ok(ValueModel::Number(negated(n))),
            _ => Err(runtime(operand_number_text())),
        },
        UnaryOp::Bang => Ok(ValueModel::Bool(!truthy(v))),
    }
}

pub open spec fn binary_value(a: ValueModel, op: BinaryOp, b: ValueModel) -> Outcome {
    match op {
        BinaryOp::EqualEqual => Ok(ValueModel::Bool(values_equal(a, b))),
        BinaryOp::BangEqual => Ok(ValueModel::Bool(!values_equal(a, b))),
        BinaryOp::Plus => match (a, b) {
            (ValueModel::Number(x), ValueModel::Number(y)) => number_result(sum_parts(x.parts(), y.parts())),
            (ValueModel::Str(x), ValueModel::Str(y)) => Ok(ValueModel::Str(x + y)),
            _ => Err(runtime(binary_mismatch_text())),
        },
        _ => match (a, b) {
            (ValueModel::Number(x), ValueModel::Number(y)) => {
                let (p, q) = (x.parts(), y.parts());
                match op {
                    BinaryOp::Minus => number_result(difference_parts(p, q)),
                    BinaryOp::Star => number_result(product_parts(p, q)),
                    BinaryOp::Slash => if q.0 == 0 {
                        Err(ErrorModel::DivisionByZero)
                    } else {
                        number_result(quotient_parts(p, q))
                    },
                    BinaryOp::Greater => Ok(ValueModel::Bool(less_parts(q, p))),
                    BinaryOp::GreaterEqual => Ok(ValueModel::Bool(!less_parts(p, q))),
                    BinaryOp::Less => Ok(ValueModel::Bool(less_parts(p, q))),
                    _ => Ok(ValueModel::Bool(!less_parts(q, p))),
                }
            },
            _ => Err(runtime(operands_numbers_text())),
        },
    }
}

/// What an expression evaluates to against `env`, and the bindings after it.
pub open spec fn eval(e: ExprModel, env: Bindings) -> (Outcome, Bindings)
    decreases e,
{
    match e {
        ExprModel::Literal(l) => (Ok(literal_value(l)), env),
        ExprModel::Grouping(x) => eval(*x, env),
        ExprModel::Unary(op, x) => {
            let (r, env1) = eval(*x, env);
            match r {
                Ok(v) => (unary_value(op, v), env1),
                Err(err) => (Err(err), env1),
            }
        },
        ExprModel::Binary(a, op, b) => {
            let (ra, env1) = eval(*a, env);
            match ra {
                Err(err) => (Err(err), env1),
                Ok(va) => {
                    let (rb, env2) = eval(*b, env1);
                    match rb {
                        Err(err) => (Err(err), env2),
                        Ok(vb) => (binary_value(va, op, vb), env2),
                    }
                },
            }
        },
        ExprModel::Variable(t) => match lookup(env, t.lexeme) {
            Some(v) => (Ok(v), env),
            None => (Err(runtime(undefined_text(t.lexeme))), env),
        },
        ExprModel::Assign(t, x) => {
            let (r, env1) = eval(*x, env);
            match r {
                Err(err) => (Err(err), env1),
                Ok(v) => match assigned(env1, t.lexeme, v) {
                    Some(env2) => (Ok(v), env2),
                    None => (Err(runtime(undefined_text(t.lexeme))), env1),
                },
            }
        },
        ExprModel::Logical(a, op, b) => {
            let (ra, env1) = eval(*a, env);
            match ra {
                Err(err) => (Err(err), env1),
                Ok(va) => if (op == LogicalOp::Or) == truthy(va) {
                    (Ok(va), env1)
                } else {
                    eval(*b, env1)
                },
            }
        },
    }
}

/// The bindings and the lines printed so far.
pub struct State {
    pub env: Bindings,
    pub out: Seq<Seq<char>>,
}

/// The result of running a statement: its value or error, the state after
/// it, and the loop budget left.
pub type Run = (Outcome, State, nat);

pub open spec fn at_most(f: nat, max: nat) -> nat {
    if f <= max { f } else { max }
}

/// Running a statement with a budget of `fuel` loop iterations, shared by all
/// loops it runs. A loop that finds the budget spent ends with an error.
pub open spec fn exec(s: StmtModel, st: State, fuel: nat) -> Run
    decreases fuel, s,
{
    match s {
        StmtModel::Expression(e) => {
            let (r, env1) = eval(e, st.env);
            (r, State { env: env1, ..st }, fuel)
        },
        StmtModel::Print(e) => {
            let (r, env1) = eval(e, st.env);
            match r {
                Ok(v) => (Ok(v), State { env: env1, out: st.out.push(print_text(v)) }, fuel),
                Err(err) => (Err(err), State { env: env1, ..st }, fuel),
            }
        },
        StmtModel::Var(t, init) => match init {
            Some(e) => {
                let (r, env1) = eval(e, st.env);
                match r {
                    Ok(v) => (Ok(ValueModel::Nil), State { env: defined(env1, t.lexeme, v), ..st }, fuel),
                    Err(err) => (Err(err), State { env: env1, ..st }, fuel),
                }
            },
            None => (Ok(ValueModel::Nil), State { env: defined(st.env, t.lexeme, ValueModel::Nil), ..st }, fuel),
        },
        StmtModel::Block(ss) => {
            let (r, st1, f1) = exec_block(ss, st, fuel);
            let st2 = State { env: truncated(st1.env, st.env.len()), ..st1 };
            match r {
                Ok(_) => (Ok(ValueModel::Nil), st2, f1),
                Err(err) => (Err(err), st2, f1),
            }
        },
        StmtModel::If(c, t, e) => {
            let (rc, env1) = eval(c, st.env);
            let st1 = State { env: env1, ..st };
            match rc {
                Err(err) => (Err(err), st1, fuel),
                Ok(vc) => {
                    let branch = if truthy(vc) { Some(*t) } else { match e { Some(x) => Some(*x), None => None } };
                    match branch {
                        None => (Ok(ValueModel::Nil), st1, fuel),
                        Some(b) => {
                            let (rb, st2, f2) = exec(b, st1, fuel);
                            match rb {
                                Ok(_) => (Ok(ValueModel::Nil), st2, f2),
                                Err(err) => (Err(err), st2, f2),
                            }
                        },
                    }
                },
            }
        },
        StmtModel::While(c, body) => {
            if fuel == 0 {
                (Err(ErrorModel::BudgetExhausted), st, 0)
            } else {
                let f = (fuel - 1) as nat;
                let (rc, env1) = eval(c, st.env);
                let st1 = State { env: env1, ..st };
                match rc {
                    Err(err) => (Err(err), st1, f),
                    Ok(vc) => if !truthy(vc) {
                        (Ok(ValueModel::Nil), st1, f)
                    } else {
                        let (rb, st2, f2) = exec(*body, st1, f);
                        match rb {
                            Err(err) => (Err(err), st2, f2),
                            Ok(_) => exec(StmtModel::While(c, body), st2, at_most(f2, f)),
                        }
                    },
                }
            }
        },
    }
}

/// Running the statements of a block in order, up to the first error.
pub open spec fn exec_block(ss: Seq<StmtModel>, st: State, fuel: nat) -> Run
    decreases fuel, ss,
{
    if ss.len() == 0 {
        (Ok(ValueModel::Nil), st, fuel)
    } else {
        let (r, st1, f1) = exec(ss[0], st, fuel);
        match r {
            Err(err) => (Err(err), st1, f1),
            Ok(_) => exec_block(ss.drop_first(), st1, at_most(f1, fuel)),
        }
    }
}

/// Running a program: the value of each statement, up to the first error.
pub open spec fn run(ss: Seq<StmtModel>, st: State, fuel: nat) -> (Result<Seq<ValueModel>, ErrorModel>, State)
    decreases ss.len(),
{
    if ss.len() == 0 {
        (Ok(Seq::empty()), st)
    } else {
        let (r, st1, f1) = exec(ss[0], st, fuel);
        match r {
            Err(err) => (Err(err), st1),
            Ok(v) => {
                let (rest, st2) = run(ss.drop_first(), st1, f1);
                match rest {
                    Ok(vs) => (Ok(seq![v] + vs), st2),
                    Err(err) => (Err(err), st2),
                }
            },
        }
    }
}

pub proof fn lemma_exec_fuel(s: StmtModel, st: State, fuel: nat)
    ensures
        exec(s, st, fuel).2 <= fuel,
    decreases fuel, s, 1nat,
{
    match s {
        StmtModel::Block(ss) => {
            lemma_exec_block_fuel(ss, st, fuel);
        },
        StmtModel::If(c, t, e) => {
            let st1 = State { env: eval(c, st.env).1, ..st };
            lemma_exec_fuel(*t, st1, fuel);
            if let Some(x) = e {
                lemma_exec_fuel(*x, st1, fuel);
            }
        },
        StmtModel::While(c, body) => {
            if fuel > 0 {
                let f = (fuel - 1) as nat;
                let st1 = State { env: eval(c, st.env).1, ..st };
                lemma_exec_fuel(*body, st1, f);
                let (rb, st2, f2) = exec(*body, st1, f);
                lemma_exec_fuel(StmtModel::While(c, body), st2, at_most(f2, f));
            }
        },
        _ => {},
    }
}

pub proof fn lemma_exec_block_fuel(ss: Seq<StmtModel>, st: State, fuel: nat)
    ensures
        exec_block(ss, st, fuel).2 <= fuel,
    decreases fuel, ss, 0nat,
{
    if ss.len() > 0 {
        lemma_exec_fuel(ss[0], st, fuel);
        let (r, st1, f1) = exec(ss[0], st, fuel);
        lemma_exec_block_fuel(ss.drop_first(), st1, at_most(f1, fuel));
    }
}

/// `env1` holds every binding of `env0`, at the same place and under the same
/// name, and perhaps more after them.
pub open spec fn keeps_bindings(env0: Bindings, env1: Bindings) -> bool {
    &&& env1.len() >= env0.len()
    &&& forall|i: int| 0 <= i < env0.len() ==> #[trigger] env1[i].0 == env0[i].0
}

/// Evaluating an expression changes values only: the bindings keep their
/// number and their names.
pub proof fn lemma_eval_keeps_bindings(e: ExprModel, env: Bindings)
    ensures
        eval(e, env).1.len() == env.len(),
        forall|i: int| 0 <= i < env.len() ==> #[trigger] eval(e, env).1[i].0 == env[i].0,
    decreases e,
{
    match e {
        ExprModel::Grouping(x) => lemma_eval_keeps_bindings(*x, env),
        ExprModel::Unary(_, x) => lemma_eval_keeps_bindings(*x, env),
        ExprModel::Binary(a, _, b) => {
            lemma_eval_keeps_bindings(*a, env);
            lemma_eval_keeps_bindings(*b, eval(*a, env).1);
        },
        ExprModel::Assign(t, x) => {
            lemma_eval_keeps_bindings(*x, env);
            let (r, env1) = eval(*x, env);
            crate::environment::lemma_last_index_bound(env1, t.lexeme);
        },
        ExprModel::Logical(a, _, b) => {
            lemma_eval_keeps_bindings(*a, env);
            lemma_eval_keeps_bindings(*b, eval(*a, env).1);
        },
        _ => {},
    }
}

/// Running a statement never removes or renames the bindings it starts with.
pub proof fn lemma_exec_keeps_bindings(s: StmtModel, st: State, fuel: nat)
    ensures
        keeps_bindings(st.env, exec(s, st, fuel).1.env),
    decreases fuel, s, 1nat,
{
    match s {
        StmtModel::Expression(e) => lemma_eval_keeps_bindings(e, st.env),
        StmtModel::Print(e) => lemma_eval_keeps_bindings(e, st.env),
        StmtModel::Var(t, init) => {
            if let Some(e) = init {
                lemma_eval_keeps_bindings(e, st.env);
            }
        },
        StmtModel::Block(ss) => {
            lemma_exec_block_keeps_bindings(ss, st, fuel);
        },
        StmtModel::If(c, t, e) => {
            lemma_eval_keeps_bindings(c, st.env);
            let st1 = State { env: eval(c, st.env).1, ..st };
            lemma_exec_keeps_bindings(*t, st1, fuel);
            if let Some(x) = e {
                lemma_exec_keeps_bindings(*x, st1, fuel);
            }
        },
        StmtModel::While(c, body) => {
            if fuel > 0 {
                let f = (fuel - 1) as nat;
                lemma_eval_keeps_bindings(c, st.env);
                let st1 = State { env: eval(c, st.env).1, ..st };
                lemma_exec_keeps_bindings(*body, st1, f);
                let (rb, st2, f2) = exec(*body, st1, f);
                lemma_exec_keeps_bindings(StmtModel::While(c, body), st2, at_most(f2, f));
            }
        },
    }
}

pub proof fn lemma_exec_block_keeps_bindings(ss: Seq<StmtModel>, st: State, fuel: nat)
    ensures
        keeps_bindings(st.env, exec_block(ss, st, fuel).1.env),
    decreases fuel, ss, 0nat,
{
    if ss.len() > 0 {
        lemma_exec_keeps_bindings(ss[0], st, fuel);
        let (r, st1, f1) = exec(ss[0], st, fuel);
        lemma_exec_block_keeps_bindings(ss.drop_first(), st1, at_most(f1, fuel));
    }
}

/// After a block, on success or error, the bindings are those from before it,
/// by number and by name: what the block declared is gone, and a name it
/// shadowed is seen with its outer binding again.
pub proof fn block_closes_its_scope(ss: Seq<StmtModel>, st: State, fuel: nat)
    ensures
        exec(StmtModel::Block(ss), st, fuel).1.env.len() == st.env.len(),
        forall|i: int| 0 <= i < st.env.len() ==> #[trigger] exec(StmtModel::Block(ss), st, fuel).1.env[i].0 == st.env[i].0,
{
    lemma_exec_block_keeps_bindings(ss, st, fuel);
}

/// A block that holds one statement has that statement's effect: the same
/// success or error, the same printed lines and loop budget, and the same
/// bindings but for those the statement introduced, which the block drops.
pub proof fn block_of_one_statement(s: StmtModel, st: State, fuel: nat)
    ensures
        ({
            let (rb, stb, fb) = exec(StmtModel::Block(seq![s]), st, fuel);
            let (rs, sts, fs) = exec(s, st, fuel);
            &&& stb.out == sts.out
            &&& fb == fs
            &&& (rb is Ok <==> rs is Ok)
            &&& (rs is Err ==> rb == rs)
            &&& stb.env == truncated(sts.env, st.env.len())
            &&& sts.env.len() >= st.env.len()
            &&& stb.env == sts.env.take(st.env.len() as int)
            &&& stb.env.len() == st.env.len()
            &&& forall|i: int| 0 <= i < st.env.len() ==> #[trigger] stb.env[i] == sts.env[i] && stb.env[i].0 == st.env[i].0
        }),
{
    lemma_exec_fuel(s, st, fuel);
    lemma_exec_keeps_bindings(s, st, fuel);
    let ss = seq![s];
    assert(ss[0] == s);
    assert(ss.drop_first() =~= Seq::<StmtModel>::empty());
    let (r, st1, f1) = exec(s, st, fuel);
    assert(exec_block(ss.drop_first(), st1, at_most(f1, fuel)) == (Ok::<ValueModel, ErrorModel>(ValueModel::Nil), st1, f1));
    let blk: Run = match r {
        Err(err) => (Err(err), st1, f1),
        Ok(_) => (Ok(ValueModel::Nil), st1, f1),
    };
    assert(exec_block(ss, st, fuel) == blk);
    let (rb, stb, fb) = exec(StmtModel::Block(ss), st, fuel);
    assert(stb == State { env: truncated(st1.env, st.env.len()), ..st1 });
}

/// Negating a number twice gives the number back.
pub proof fn negation_twice(e: ExprModel, env: Bindings)
    requires
        eval(e, env).0 matches Ok(ValueModel::Number(_)),
    ensures
        eval(ExprModel::Unary(UnaryOp::Minus, Box::new(ExprModel::Unary(UnaryOp::Minus, Box::new(e)))), env) == eval(e, env),
{
    if let Ok(ValueModel::Number(n)) = eval(e, env).0 {
        lemma_negated_twice(n);
    }
    let inner = ExprModel::Unary(UnaryOp::Minus, Box::new(e));
    assert(eval(inner, env) == (unary_value(UnaryOp::Minus, eval(e, env).0->Ok_0), eval(e, env).1));
}

/// `!!e` is the truthiness of `e`.
pub proof fn not_not(e: ExprModel, env: Bindings)
    ensures
        eval(ExprModel::Unary(UnaryOp::Bang, Box::new(ExprModel::Unary(UnaryOp::Bang, Box::new(e)))), env) == (
            match eval(e, env).0 {
                Ok(v) => Ok(ValueModel::Bool(truthy(v))),
                Err(x) => Err(x),
            },
            eval(e, env).1,
        ),
{
    let inner = ExprModel::Unary(UnaryOp::Bang, Box::new(e));
    assert(eval(inner, env) == (match eval(e, env).0 {
        Ok(v) => Ok(ValueModel::Bool(!truthy(v))),
        Err(x) => Err(x),
    }, eval(e, env).1));
}

/// `a or b` is `a` when `a` is true, whatever `b` is: `b` is not evaluated.
pub proof fn or_short_circuits(a: ExprModel, b: ExprModel, env: Bindings)
    requires
        eval(a, env).0 matches Ok(v) && truthy(v),
    ensures
        eval(ExprModel::Logical(Box::new(a), LogicalOp::Or, Box::new(b)), env) == eval(a, env),
{
}

/// `a and b` is `a` when `a` is false, whatever `b` is: `b` is not evaluated.
pub proof fn and_short_circuits(a: ExprModel, b: ExprModel, env: Bindings)
    requires
        eval(a, env).0 matches Ok(v) && !truthy(v),
    ensures
        eval(ExprModel::Logical(Box::new(a), LogicalOp::And, Box::new(b)), env) == eval(a, env),
{
}

pub open spec fn outcome_of(r: Result<Value, Error>) -> Outcome {
    match r {
        Ok(v) => Ok(v@),
        Err(e) => Err(e@),
    }
}

pub open spec fn outputs_view(v: Seq<String>) -> Seq<Seq<char>> {
    v.map_values(|s: String| s@)
}

pub open spec fn values_view(v: Seq<Value>) -> Seq<ValueModel> {
    v.map_values(|x: Value| x@)
}

/// The value that a literal stands for.
pub fn expression_literal_to_value(literal: &Literal) -> (r: Value)
    ensures
        r@ == literal_value(literal@),
{
    match literal {
        Literal::Number(n) => Value::Number(*n),
        Literal::Str(s) => Value::String(s.clone()),
        Literal::False => Value::Bool(false),
        Literal::True => Value::Bool(true),
        Literal::Nil => Value::Nil,
    }
}

pub fn is_truthy(value: &Value) -> (r: bool)
    ensures
        r == truthy(value@),
{
    value.is_truthy()
}

fn runtime_error(message: &str) -> (r: Error)
    ensures
        r@ == runtime(message@),
{
    Error::RuntimeError(String::from_str(message))
}

pub fn undefined_error(name: &String) -> (r: Error)
    ensures
        r@ == runtime(undefined_text(name@)),
{
    let mut m = String::from_str("Undefined variable '");
    m.append(name.as_str());
    m.append("'.");
    Error::RuntimeError(m)
}

fn number_value(r: Number, Ghost(p): Ghost<(int, int)>) -> (v: Result<Value, Error>)
    requires
        r.parts() == p,
    ensures
        outcome_of(v) == number_result(p),
{
    proof {
        lemma_number_of_parts(r);
    }
    Ok(Value::Number(r))
}

/// The value of a unary operator on an evaluated operand.
pub fn unary_operation(operator: UnaryOp, value: &Value) -> (r: Result<Value, Error>)
    ensures
        outcome_of(r) == unary_value(operator, value@),
{
    match (operator, value) {
        (UnaryOp::Minus, Value::Number(n)) => {
            let m = n.negate();
            proof {
                lemma_number_of_parts(m);
                assert(m == negated(*n));
            }
            Ok(Value::Number(m))
        },
        (UnaryOp::Minus, _) => Err(runtime_error("Operand must be a number.")),
        (UnaryOp::Bang, _) => Ok(Value::Bool(!value.is_truthy())),
    }
}

/// The value of a binary operator on evaluated operands.
pub fn binary_operation(left: &Value, operator: BinaryOp, right: &Value) -> (r: Result<Value, Error>)
    ensures
        outcome_of(r) == binary_value(left@, operator, right@),
{
    match operator {
        BinaryOp::EqualEqual => return Ok(Value::Bool(left.equals(right))),
        BinaryOp::BangEqual => return Ok(Value::Bool(!left.equals(right))),
        BinaryOp::Plus => {
            return match (left, right) {
                (Value::Number(x), Value::Number(y)) => number_value(x.add(y), Ghost(sum_parts(x.parts(), y.parts()))),
                (Value::String(x), Value::String(y)) => {
                    let mut s = x.clone();
                    s.append(y.as_str());
                    Ok(Value::String(s))
                },
                _ => Err(runtime_error("Runtime error in binary expression!")),
            };
        },
        _ => {},
    }
    match (left, right) {
        (Value::Number(x), Value::Number(y)) => match operator {
            BinaryOp::Minus => number_value(x.subtract(y), Ghost(difference_parts(x.parts(), y.parts()))),
            BinaryOp::Star => number_value(x.multiply(y), Ghost(product_parts(x.parts(), y.parts()))),
            BinaryOp::Slash => {
                if y.is_zero() {
                    Err(Error::DivisionByZeroError)
                } else {
                    number_value(x.divide(y), Ghost(quotient_parts(x.parts(), y.parts())))
                }
            },
            BinaryOp::Greater => Ok(Value::Bool(y.less_than(x))),
            BinaryOp::GreaterEqual => Ok(Value::Bool(!x.less_than(y))),
            BinaryOp::Less => Ok(Value::Bool(x.less_than(y))),
            _ => Ok(Value::Bool(!y.less_than(x))),
        },
        _ => Err(runtime_error("Operands must be numbers.")),
    }
}

/// Runs statements, keeping the bindings, the printed lines and the loop budget.
pub struct Interpreter {
    pub environment: Environment,
    pub output: Vec<String>,
    pub budget: u64,
}

impl Default for Interpreter {
    fn default() -> (r: Interpreter)
        ensures
            r.environment@ == Seq::<(Seq<char>, ValueModel)>::empty(),
            r.output@ == Seq::<String>::empty(),
            r.budget == u64::MAX,
    {
        Interpreter { environment: Environment::default(), output: Vec::new(), budget: u64::MAX }
    }
}

impl Interpreter {
    pub open spec fn state(&self) -> State {
        State { env: self.environment@, out: outputs_view(self.output@) }
    }

    /// Runs the statements in order and gives the value of each; stops at the
    /// first runtime error.
    pub fn interpret(&mut self, statements: Vec<Statement>) -> (r: Result<Vec<Value>, Error>)
        ensures
            ({
                let (rs, st) = run(stmts_view(statements@), old(self).state(), old(self).budget as nat);
                &&& final(self).state() == st
                &&& match rs {
                    Ok(vs) => r is Ok && values_view(r->Ok_0@) == vs,
                    Err(e) => r is Err && r->Err_0@ == e,
                }
            }),
    {
        let ghost xs = stmts_view(statements@);
        let ghost st0 = self.state();
        let ghost f0 = self.budget as nat;
        proof {
            lemma_stmts_view_index(statements@);
        }
        let mut values: Vec<Value> = Vec::new();
        let mut i: usize = 0;
        assert(xs.skip(0) =~= xs);
        assert(values_view(values@) =~= Seq::<ValueModel>::empty());
        while i < statements.len()
            invariant
                i <= statements.len(),
                xs == stmts_view(statements@),
                xs.len() == statements.len(),
                forall|k: int| 0 <= k < statements.len() ==> #[trigger] xs[k] == statements@[k]@,
                run(xs, st0, f0) == ({
                    let (rest, st) = run(xs.skip(i as int), self.state(), self.budget as nat);
                    match rest {
                        Ok(vs) => (Ok(values_view(values@) + vs), st),
                        Err(e) => (Err(e), st),
                    }
                }),
                st0 == old(self).state(),
                f0 == old(self).budget,
            decreases statements.len() - i,
        {
            let ghost ys = xs.skip(i as int);
            assert(ys[0] == statements@[i as int]@);
            assert(ys.drop_first() =~= xs.skip(i + 1));
            match self.execute(&statements[i]) {
                Ok(v) => {
                    proof {
                        let ghost vs0 = values_view(values@);
                        assert(values_view(values@.push(v)) =~= vs0.push(v@));
                        let (rest, st) = run(xs.skip(i + 1), self.state(), self.budget as nat);
                        match rest {
                            Ok(vs) => {
                                assert(vs0 + (seq![v@] + vs) =~= vs0.push(v@) + vs);
                            },
                            Err(e) => {},
                        }
                    }
                    values.push(v);
                },
                Err(e) => {
                    return Err(e);
                },
            }
            i = i + 1;
        }
        assert(xs.skip(i as int) =~= Seq::<StmtModel>::empty());
        assert(values_view(values@) + Seq::<ValueModel>::empty() =~= values_view(values@));
        Ok(values)
    }

    /// Evaluates an expression against the current bindings.
    pub fn evaluate(&mut self, expr: &Expr) -> (r: Result<Value, Error>)
        ensures
            (outcome_of(r), final(self).environment@) == eval(expr@, old(self).environment@),
            final(self).output == old(self).output,
            final(self).budget == old(self).budget,
        decreases expr, 1nat,
    {
        match expr {
            Expr::Literal(literal) => Ok(expression_literal_to_value(literal)),
            Expr::Grouping(inner) => self.evaluate(inner),
            Expr::Unary(..) => self.interpret_unary(expr),
            Expr::Binary(..) => self.interpret_binary(expr),
            Expr::Variable(token) => self.environment.get(token),
            Expr::Assign(token, value_expr) => {
                let value = match self.evaluate(value_expr) {
                    Ok(v) => v,
                    Err(e) => return Err(e),
                };
                let copy = value.duplicate();
                match self.environment.assign(&token.lexeme, value) {
                    Ok(()) => Ok(copy),
                    Err(e) => Err(e),
                }
            },
            Expr::Logical(..) => self.interpret_logical(expr),
        }
    }

    /// Evaluates `a or b` or `a and b`, evaluating `b` only when `a` does not decide.
    pub fn interpret_logical(&mut self, expr: &Expr) -> (r: Result<Value, Error>)
        requires
            expr is Logical,
        ensures
            (outcome_of(r), final(self).environment@) == eval(expr@, old(self).environment@),
            final(self).output == old(self).output,
            final(self).budget == old(self).budget,
        decreases expr, 0nat,
    {
        let (left, operator, right) = match expr {
            Expr::Logical(l, o, r) => (l, *o, r),
            _ => return Err(Error::RuntimeError(String::new())),
        };
        let left = match self.evaluate(left) {
            Ok(v) => v,
            Err(e) => return Err(e),
        };
        match operator {
            LogicalOp::Or => {
                if left.is_truthy() {
                    return Ok(left);
                }
            },
            LogicalOp::And => {
                if !left.is_truthy() {
                    return Ok(left);
                }
            },
        }
        self.evaluate(right)
    }

    /// Evaluates `-e` or `!e`.
    pub fn interpret_unary(&mut self, expr: &Expr) -> (r: Result<Value, Error>)
        requires
            expr is Unary,
        ensures
            (outcome_of(r), final(self).environment@) == eval(expr@, old(self).environment@),
            final(self).output == old(self).output,
            final(self).budget == old(self).budget,
        decreases expr, 0nat,
    {
        let (operator, expression) = match expr {
            Expr::Unary(o, x) => (*o, x),
            _ => return Err(Error::RuntimeError(String::new())),
        };
        let value = match self.evaluate(expression) {
            Ok(v) => v,
            Err(e) => return Err(e),
        };
        unary_operation(operator, &value)
    }

    /// Evaluates both operands, left first, then the operator.
    pub fn interpret_binary(&mut self, expr: &Expr) -> (r: Result<Value, Error>)
        requires
            expr is Binary,
        ensures
            (outcome_of(r), final(self).environment@) == eval(expr@, old(self).environment@),
            final(self).output == old(self).output,
            final(self).budget == old(self).budget,
        decreases expr, 0nat,
    {
        let (left_expression, operator, right_expression) = match expr {
            Expr::Binary(l, o, r) => (l, *o, r),
            _ => return Err(Error::RuntimeError(String::new())),
        };
        let left = match self.evaluate(left_expression) {
            Ok(v) => v,
            Err(e) => return Err(e),
        };
        let right = match self.evaluate(right_expression) {
            Ok(v) => v,
            Err(e) => return Err(e),
        };
        binary_operation(&left, operator, &right)
    }

    /// Runs one statement.
    pub fn execute(&mut self, statement: &Statement) -> (r: Result<Value, Error>)
        ensures
            ({
                let (rs, st, f) = exec(statement@, old(self).state(), old(self).budget as nat);
                &&& outcome_of(r) == rs
                &&& final(self).state() == st
                &&& final(self).budget == f
            }),
            final(self).budget <= old(self).budget,
        decreases old(self).budget, statement,
    {
        match statement {
            Statement::Print(expr) => {
                let value = match self.evaluate(expr) {
                    Ok(v) => v,
                    Err(e) => return Err(e),
                };
                let ghost before = outputs_view(self.output@);
                self.output.push(value.print_text());
                assert(outputs_view(self.output@) =~= before.push(print_text(value@)));
                Ok(value)
            },
            Statement::Expression(expr) => self.evaluate(expr),
            Statement::Var(token, initializer) => {
                let value = match initializer {
                    Some(expr) => match self.evaluate(expr) {
                        Ok(v) => v,
                        Err(e) => return Err(e),
                    },
                    None => Value::Nil,
                };
                self.environment.define(token.lexeme.clone(), value);
                Ok(Value::Nil)
            },
            Statement::Block(statements) => {
                let mark = self.environment.len();
                let r = self.execute_block(statements);
                self.environment.truncate(mark);
                match r {
                    Ok(_) => Ok(Value::Nil),
                    Err(e) => Err(e),
                }
            },
            Statement::If(condition, then_branch, else_branch) => {
                let c = match self.evaluate(condition) {
                    Ok(v) => v,
                    Err(e) => return Err(e),
                };
                let r = if c.is_truthy() {
                    self.execute(then_branch)
                } else {
                    match else_branch {
                        Some(b) => self.execute(b),
                        None => Ok(Value::Nil),
                    }
                };
                match r {
                    Ok(_) => Ok(Value::Nil),
                    Err(e) => Err(e),
                }
            },
            Statement::While(condition, body) => {
                let ghost s = statement@;
                let ghost st0 = self.state();
                let ghost f0 = self.budget as nat;
                loop
                    invariant
                        s == statement@,
                        s == StmtModel::While(condition@, Box::new(body@)),
                        exec(s, st0, f0) == exec(s, self.state(), self.budget as nat),
                        st0 == old(self).state(),
                        f0 == old(self).budget,
                        self.budget <= old(self).budget,
                    decreases self.budget,
                {
                    if self.budget == 0 {
                        return Err(Error::BudgetExhausted);
                    }
                    self.budget = self.budget - 1;
                    let c = match self.evaluate(condition) {
                        Ok(v) => v,
                        Err(e) => return Err(e),
                    };
                    if !c.is_truthy() {
                        return Ok(Value::Nil);
                    }
                    match self.execute(body) {
                        Ok(_) => {},
                        Err(e) => return Err(e),
                    }
                }
            },
        }
    }

    fn execute_block(&mut self, statements: &Vec<Statement>) -> (r: Result<Value, Error>)
        ensures
            ({
                let (rs, st, f) = exec_block(stmts_view(statements@), old(self).state(), old(self).budget as nat);
                &&& outcome_of(r) == rs
                &&& final(self).state() == st
                &&& final(self).budget == f
            }),
            final(self).budget <= old(self).budget,
        decreases old(self).budget, statements,
    {
        let ghost xs = stmts_view(statements@);
        let ghost st0 = self.state();
        let ghost f0 = self.budget as nat;
        proof {
            lemma_stmts_view_index(statements@);
        }
        assert(xs.skip(0) =~= xs);
        let mut i: usize = 0;
        while i < statements.len()
            invariant
                i <= statements.len(),
                xs == stmts_view(statements@),
                xs.len() == statements.len(),
                forall|k: int| 0 <= k < statements.len() ==> #[trigger] xs[k] == statements@[k]@,
                exec_block(xs, st0, f0) == exec_block(xs.skip(i as int), self.state(), self.budget as nat),
                st0 == old(self).state(),
                f0 == old(self).budget,
                self.budget <= old(self).budget,
            decreases statements.len() - i,
        {
            let ghost ys = xs.skip(i as int);
            assert(ys[0] == statements@[i as int]@);
            assert(ys.drop_first() =~= xs.skip(i + 1));
            proof {
                assert(decreases_to!(statements => statements@));
                assert(decreases_to!(statements@ => statements@[i as int]));
            }
            match self.execute(&statements[i]) {
                Ok(_) => {},
                Err(e) => return Err(e),
            }
            i = i + 1;
        }
        assert(xs.skip(i as int) =~= Seq::<StmtModel>::empty());
        Ok(Value::Nil)
    }
}

} // verus!
