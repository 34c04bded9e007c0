//! A tree-walking interpreter for a small dynamically-typed scripting language:
//! a scanner, a recursive-descent parser and an evaluator, each specified
//! against a mathematical model and verified.
use vstd::prelude::*;

pub mod environment;
pub mod expr;
pub mod interpreter;
pub mod number;
pub mod parse_error;
pub mod parser;
pub mod round_trip;
pub mod scanner;
pub mod statement;
pub mod symbol;
pub mod text;
pub mod token;
pub mod tokenizer;
pub mod value;

use crate::interpreter::{Interpreter, State, error_text, outputs_view, run};
use crate::parse_error::{ParseError, expectation_text, parse_error_text};
use crate::parser::{Parser, program};
use crate::statement::{StmtModel, lemma_stmts_view_index, stmt_text, stmts_view};
use crate::token::token::{TokenModel, token_text};
use crate::tokenizer::{ScanDiagnostic, ScanError, Tokenizer, diagnostic_text, diagnostics_view, eof_token, scan, tokens_view};
use crate::value::result_text;

verus! {

/// Why running a source text failed, with the message to show.
#[derive(Debug, PartialEq)]
pub enum Error {
    TokenizingError(String),
    ParseError(String),
    InterpreterError(String),
}

/// The loop budget that `execute` gives a program.
pub const LOOP_BUDGET: u64 = 0xffff_ffff_ffff_ffff;

/// The tokens of a source text, ending in the end-of-input token.
pub open spec fn source_tokens(src: Seq<char>) -> Seq<crate::token::token::TokenModel> {
    let s = scan(src, 0, 1);
    s.tokens.push(eof_token(s.line))
}

/// The statements of a source text, where it scans without error and parses.
pub open spec fn source_program(src: Seq<char>) -> Result<Seq<StmtModel>, crate::parse_error::ParseError> {
    program(source_tokens(src), 0)
}

/// The token sequence of every source text ends with the end-of-input token,
/// with no lexeme and no value, and holds no other.
pub proof fn tokens_end_with_eof(src: Seq<char>)
    ensures
        source_tokens(src).len() > 0,
        source_tokens(src).last().kind == crate::token::token_type::TokenType::EOF,
        source_tokens(src).last().lexeme.len() == 0,
        source_tokens(src).last().literal is None,
        forall|i: int| 0 <= i < source_tokens(src).len() - 1
            ==> #[trigger] source_tokens(src)[i].kind != crate::token::token_type::TokenType::EOF,
{
    crate::tokenizer::lemma_scan_has_no_eof(src, 0, 1);
    let s = scan(src, 0, 1);
    assert forall|i: int| 0 <= i < source_tokens(src).len() - 1
        implies #[trigger] source_tokens(src)[i].kind != crate::token::token_type::TokenType::EOF by {
        assert(source_tokens(src)[i] == s.tokens[i]);
    }
}

/// What `execute` gives for `src`: the text of each top-level statement's
/// value, or the error of the first stage that failed.
pub open spec fn execution_matches(src: Seq<char>, r: Result<Vec<String>, Error>) -> bool {
    &&& scan(src, 0, 1).errors.len() > 0 ==> (r matches Err(Error::TokenizingError(m)) && m@ == "Failed parsing tokens"@)
    &&& scan(src, 0, 1).errors.len() == 0 ==> match source_program(src) {
        Err(pe) => r matches Err(Error::ParseError(m)) && m@ == parse_error_text(pe),
        Ok(ss) => match run(ss, State { env: Seq::empty(), out: Seq::empty() }, LOOP_BUDGET as nat).0 {
            Ok(vs) => r matches Ok(texts) && texts@.len() == vs.len()
                && forall|i: int| 0 <= i < vs.len() ==> #[trigger] texts@[i]@ == result_text(vs[i]),
            Err(e) => r matches Err(Error::InterpreterError(m)) && m@ == error_text(e),
        },
    }
}

/// The lines that `print` writes while `src` runs: none where it does not
/// scan or parse; up to the first runtime error otherwise.
pub open spec fn printed_lines(src: Seq<char>) -> Seq<Seq<char>> {
    if scan(src, 0, 1).errors.len() > 0 {
        Seq::empty()
    } else {
        match source_program(src) {
            Err(_) => Seq::empty(),
            Ok(ss) => run(ss, State { env: Seq::empty(), out: Seq::empty() }, LOOP_BUDGET as nat).1.out,
        }
    }
}

/// Scans, parses and runs `source`; gives the text of each top-level
/// statement's value. The lines that `print` writes are not kept here:
/// `execute_with_output` gives them too.
pub fn execute(source: &str) -> (r: Result<Vec<String>, Error>)
    requires
        source@.len() < usize::MAX,
    ensures
        execution_matches(source@, r),
{
    execute_with_output(source).0
}

/// As `execute`, and also the lines that `print` wrote, in order.
pub fn execute_with_output(source: &str) -> (r: (Result<Vec<String>, Error>, Vec<String>))
    requires
        source@.len() < usize::MAX,
    ensures
        execution_matches(source@, r.0),
        lines_view(r.1@) == printed_lines(source@),
{
    let mut tokenizer = Tokenizer::default();
    tokenizer.source = source;
    let results = tokenizer.scan_tokens();
    proof {
        assert(tokens_view(tokenizer.tokens@) =~= source_tokens(source@));
    }
    if results != 0 {
        let none: Vec<String> = Vec::new();
        assert(lines_view(none@) =~= Seq::<Seq<char>>::empty());
        return (Err(Error::TokenizingError(String::from_str("Failed parsing tokens"))), none);
    }
    let mut parser = Parser { tokens: tokenizer.tokens, current: 0 };
    let statements = match parser.parse() {
        Ok(statements) => statements,
        Err(err) => {
            let none: Vec<String> = Vec::new();
            assert(lines_view(none@) =~= Seq::<Seq<char>>::empty());
            return (Err(Error::ParseError(err.message())), none);
        },
    };
    let mut interpreter = Interpreter::default();
    proof {
        assert(crate::interpreter::outputs_view(interpreter.output@) =~= Seq::<Seq<char>>::empty());
        assert(interpreter.state() == State { env: Seq::empty(), out: Seq::empty() });
    }
    let result = interpreter.interpret(statements);
    proof {
        assert(lines_view(interpreter.output@) =~= outputs_view(interpreter.output@));
    }
    match result {
        Ok(values) => {
            let mut texts: Vec<String> = Vec::new();
            let mut i: usize = 0;
            while i < values.len()
                invariant
                    i <= values.len(),
                    texts@.len() == i,
                    forall|k: int| 0 <= k < i ==> #[trigger] texts@[k]@ == result_text(values@[k]@),
                decreases values.len() - i,
            {
                texts.push(values[i].to_string());
                i = i + 1;
            }
            (Ok(texts), interpreter.output)
        },
        Err(err) => (Err(Error::InterpreterError(err.message())), interpreter.output),
    }
}

/// What a command writes, line by line, and the status it ends with.
pub struct Report {
    pub stdout: Vec<String>,
    pub stderr: Vec<String>,
    pub exit_code: u8,
}

pub open spec fn lines_view(v: Seq<String>) -> Seq<Seq<char>> {
    v.map_values(|s: String| s@)
}

pub open spec fn diagnostic_lines(errors: Seq<(nat, ScanError)>) -> Seq<Seq<char>> {
    errors.map_values(|d: (nat, ScanError)| diagnostic_text(d.0, d.1))
}

/// The lines written for a parse error: the required token, where the
/// grammar names one, then the offending token's kind.
pub open spec fn parse_error_lines(e: ParseError) -> Seq<Seq<char>> {
    match e {
        ParseError::ExpectedToken(_, x) => seq![expectation_text(x), parse_error_text(e)],
        _ => seq![parse_error_text(e)],
    }
}

/// The status of a scan: `65` when a lexical error was found.
pub open spec fn scan_status(src: Seq<char>) -> u8 {
    if scan(src, 0, 1).errors.len() > 0 { 65 } else { 0 }
}

fn diagnostic_messages(errors: &Vec<ScanDiagnostic>) -> (r: Vec<String>)
    ensures
        lines_view(r@) == diagnostic_lines(diagnostics_view(errors@)),
{
    let mut r: Vec<String> = Vec::new();
    let mut i: usize = 0;
    while i < errors.len()
        invariant
            i <= errors.len(),
            r.len() == i,
            forall|k: int| 0 <= k < i ==> #[trigger] r@[k]@ == diagnostic_text(errors@[k].line as nat, errors@[k].error),
        decreases errors.len() - i,
    {
        r.push(errors[i].message());
        i = i + 1;
    }
    assert(lines_view(r@) =~= diagnostic_lines(diagnostics_view(errors@)));
    r
}

fn parse_error_messages(e: &ParseError) -> (r: Vec<String>)
    ensures
        lines_view(r@) == parse_error_lines(*e),
{
    let mut r: Vec<String> = Vec::new();
    match e.expectation_message() {
        Some(m) => r.push(m),
        None => {},
    }
    r.push(e.message());
    assert(lines_view(r@) =~= parse_error_lines(*e));
    r
}

fn scanned(source: &str) -> (t: Tokenizer)
    requires
        source@.len() < usize::MAX,
    ensures
        tokens_view(t.tokens@) == source_tokens(source@),
        diagnostics_view(t.errors@) == scan(source@, 0, 1).errors,
        t.exit_code == scan_status(source@),
{
    let mut tokenizer = Tokenizer::default();
    tokenizer.source = source;
    tokenizer.scan_tokens();
    proof {
        assert(tokens_view(tokenizer.tokens@) =~= source_tokens(source@));
        assert(diagnostics_view(tokenizer.errors@) =~= scan(source@, 0, 1).errors);
    }
    tokenizer
}

/// The `tokenize` command: one line per token, the lexical errors, and the
/// scan's status.
pub fn tokenize_source(source: &str) -> (r: Report)
    requires
        source@.len() < usize::MAX,
    ensures
        lines_view(r.stdout@) == source_tokens(source@).map_values(|t: TokenModel| token_text(t)),
        lines_view(r.stderr@) == diagnostic_lines(scan(source@, 0, 1).errors),
        r.exit_code == scan_status(source@),
{
    let tokenizer = scanned(source);
    let ghost ts = tokens_view(tokenizer.tokens@);
    let mut lines: Vec<String> = Vec::new();
    let mut i: usize = 0;
    while i < tokenizer.tokens.len()
        invariant
            i <= tokenizer.tokens.len(),
            ts == tokens_view(tokenizer.tokens@),
            lines.len() == i,
            forall|k: int| 0 <= k < i ==> #[trigger] lines@[k]@ == token_text(tokenizer.tokens@[k]@),
        decreases tokenizer.tokens.len() - i,
    {
        lines.push(tokenizer.tokens[i].to_text());
        i = i + 1;
    }
    assert(lines_view(lines@) =~= ts.map_values(|t: TokenModel| token_text(t)));
    Report { stdout: lines, stderr: diagnostic_messages(&tokenizer.errors), exit_code: tokenizer.exit_code }
}

/// The `parse` command: one line per statement, or the errors and `65`.
pub fn parse_source(source: &str) -> (r: Report)
    requires
        source@.len() < usize::MAX,
    ensures
        scan(source@, 0, 1).errors.len() > 0 ==> r.exit_code == 65 && r.stdout@.len() == 0
            && lines_view(r.stderr@) == diagnostic_lines(scan(source@, 0, 1).errors),
        scan(source@, 0, 1).errors.len() == 0 ==> match source_program(source@) {
            Err(e) => r.exit_code == 65 && r.stdout@.len() == 0 && lines_view(r.stderr@) == parse_error_lines(e),
            Ok(ss) => r.exit_code == 0 && r.stderr@.len() == 0
                && lines_view(r.stdout@) == ss.map_values(|s: StmtModel| stmt_text(s)),
        },
{
    let tokenizer = scanned(source);
    if tokenizer.exit_code != 0 {
        return Report { stdout: Vec::new(), stderr: diagnostic_messages(&tokenizer.errors), exit_code: 65 };
    }
    let mut parser = Parser { tokens: tokenizer.tokens, current: 0 };
    let statements = match parser.parse() {
        Ok(statements) => statements,
        Err(err) => {
            return Report { stdout: Vec::new(), stderr: parse_error_messages(&err), exit_code: 65 };
        },
    };
    let ghost xs = stmts_view(statements@);
    proof {
        lemma_stmts_view_index(statements@);
    }
    let mut lines: Vec<String> = Vec::new();
    let mut i: usize = 0;
    while i < statements.len()
        invariant
            i <= statements.len(),
            xs == stmts_view(statements@),
            xs.len() == statements.len(),
            forall|k: int| 0 <= k < statements.len() ==> #[trigger] xs[k] == statements@[k]@,
            lines.len() == i,
            forall|k: int| 0 <= k < i ==> #[trigger] lines@[k]@ == stmt_text(statements@[k]@),
        decreases statements.len() - i,
    {
        lines.push(statements[i].to_text());
        i = i + 1;
    }
    assert(lines_view(lines@) =~= xs.map_values(|s: StmtModel| stmt_text(s)));
    Report { stdout: lines, stderr: Vec::new(), exit_code: 0 }
}

/// The `interpret` command: the lines that `print` wrote, the errors, and
/// `0`, `65` for a lexical or parse error, or `70` for a runtime error.
pub fn interpret_source(source: &str) -> (r: Report)
    requires
        source@.len() < usize::MAX,
    ensures
        scan(source@, 0, 1).errors.len() > 0 ==> r.exit_code == 65 && r.stdout@.len() == 0
            && lines_view(r.stderr@) == diagnostic_lines(scan(source@, 0, 1).errors),
        scan(source@, 0, 1).errors.len() == 0 ==> match source_program(source@) {
            Err(e) => r.exit_code == 65 && r.stdout@.len() == 0 && lines_view(r.stderr@) == parse_error_lines(e),
            Ok(ss) => {
                let (res, st) = run(ss, State { env: Seq::empty(), out: Seq::empty() }, LOOP_BUDGET as nat);
                &&& lines_view(r.stdout@) == st.out
                &&& match res {
                    Ok(_) => r.exit_code == 0 && r.stderr@.len() == 0,
                    Err(e) => r.exit_code == 70 && lines_view(r.stderr@) == seq![error_text(e)],
                }
            },
        },
{
    let tokenizer = scanned(source);
    if tokenizer.exit_code != 0 {
        return Report { stdout: Vec::new(), stderr: diagnostic_messages(&tokenizer.errors), exit_code: 65 };
    }
    let mut parser = Parser { tokens: tokenizer.tokens, current: 0 };
    let statements = match parser.parse() {
        Ok(statements) => statements,
        Err(err) => {
            return Report { stdout: Vec::new(), stderr: parse_error_messages(&err), exit_code: 65 };
        },
    };
    let mut interpreter = Interpreter::default();
    proof {
        assert(outputs_view(interpreter.output@) =~= Seq::<Seq<char>>::empty());
        assert(interpreter.state() == State { env: Seq::empty(), out: Seq::empty() });
    }
    let result = interpreter.interpret(statements);
    proof {
        assert(lines_view(interpreter.output@) =~= outputs_view(interpreter.output@));
    }
    match result {
        Ok(_) => Report { stdout: interpreter.output, stderr: Vec::new(), exit_code: 0 },
        Err(err) => {
            let mut stderr: Vec<String> = Vec::new();
            stderr.push(err.message());
            assert(lines_view(stderr@) =~= seq![error_text(err@)]);
            Report { stdout: interpreter.output, stderr, exit_code: 70 }
        },
    }
}

} // verus!
