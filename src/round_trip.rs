//! Statements written back as source text read back as the same statements.
use vstd::prelude::*;
use crate::expr::{ExprModel, LitModel, expr_text, lit_text};
use crate::parser::{
    and, and_rest, assignment, binary, binary_rest, declaration, expression, expression_statement, operand, or,
    or_rest, primary, print_statement, program, statement, unary,
};
use crate::statement::{StmtModel, stmt_text};
use crate::{source_program, source_tokens};
use crate::token::token::{LiteralModel, TokenModel};
use crate::token::token_type::TokenType;
use crate::tokenizer::{is_alpha, keyword, lemma_word_end, lex_one, lexed_nothing, lexed_token, scan, string_end};

verus! {

/// The literals written as reserved words.
pub open spec fn is_word_literal(l: LitModel) -> bool {
    l is Nil || l is True || l is False
}

/// The literals whose source text reads back as themselves: `nil`, `true`,
/// `false`, and strings without a `"`.
pub open spec fn is_source_literal(l: LitModel) -> bool {
    ||| is_word_literal(l)
    ||| (l matches LitModel::Str(t) && forall|k: int| 0 <= k < t.len() ==> #[trigger] t[k] != '"')
}

pub open spec fn literal_kind(l: LitModel) -> TokenType {
    match l {
        LitModel::Nil => TokenType::Nil,
        LitModel::True => TokenType::True,
        LitModel::False => TokenType::False,
        _ => TokenType::String,
    }
}

/// `t` is the token that the literal `l` reads as.
pub open spec fn token_of_literal(t: TokenModel, l: LitModel) -> bool {
    &&& t.kind == literal_kind(l)
    &&& (l matches LitModel::Str(v) ==> t.literal == Some(LiteralModel::Str(v)))
}

/// The expression of a literal parses from its token, with nothing after it
/// but a `;`.
pub proof fn lemma_parse_literal(ts: Seq<TokenModel>, p: nat, l: LitModel)
    requires
        is_source_literal(l),
        p + 2 < ts.len(),
        token_of_literal(ts[p as int], l),
        ts[p + 1 as int].kind == TokenType::Semicolon,
    ensures
        expression(ts, p) == Ok::<(ExprModel, nat), crate::parse_error::ParseError>((ExprModel::Literal(l), p + 1)),
{
    reveal(expression);
    reveal(assignment);
    reveal(or);
    reveal(or_rest);
    reveal(and);
    reveal(and_rest);
    reveal(binary);
    reveal(binary_rest);
    reveal(operand);
    reveal(unary);
    reveal(primary);
    let x = ExprModel::Literal(l);
    let q = p + 1;
    assert(primary(ts, p) == Ok::<(ExprModel, nat), crate::parse_error::ParseError>((x, q)));
    assert(unary(ts, p) == primary(ts, p));
    assert(operand(ts, p, 4) == unary(ts, p));
    assert(binary_rest(ts, q, 4, x) == Ok::<(ExprModel, nat), crate::parse_error::ParseError>((x, q)));
    assert(binary(ts, p, 4) == binary_rest(ts, q, 4, x));
    assert(operand(ts, p, 3) == binary(ts, p, 4));
    assert(binary_rest(ts, q, 3, x) == Ok::<(ExprModel, nat), crate::parse_error::ParseError>((x, q)));
    assert(binary(ts, p, 3) == binary_rest(ts, q, 3, x));
    assert(operand(ts, p, 2) == binary(ts, p, 3));
    assert(binary_rest(ts, q, 2, x) == Ok::<(ExprModel, nat), crate::parse_error::ParseError>((x, q)));
    assert(binary(ts, p, 2) == binary_rest(ts, q, 2, x));
    assert(operand(ts, p, 1) == binary(ts, p, 2));
    assert(binary_rest(ts, q, 1, x) == Ok::<(ExprModel, nat), crate::parse_error::ParseError>((x, q)));
    assert(binary(ts, p, 1) == binary_rest(ts, q, 1, x));
    assert(and_rest(ts, q, x) == Ok::<(ExprModel, nat), crate::parse_error::ParseError>((x, q)));
    assert(and(ts, p) == and_rest(ts, q, x));
    assert(or_rest(ts, q, x) == Ok::<(ExprModel, nat), crate::parse_error::ParseError>((x, q)));
    assert(or(ts, p) == or_rest(ts, q, x));
    assert(assignment(ts, p) == Ok::<(ExprModel, nat), crate::parse_error::ParseError>((x, q)));
}

/// A statement that a literal of `is_source_literal` makes, printed or
/// evaluated.
pub open spec fn is_literal_statement(s: StmtModel) -> bool {
    ||| (s matches StmtModel::Expression(ExprModel::Literal(l)) && is_source_literal(l))
    ||| (s matches StmtModel::Print(ExprModel::Literal(l)) && is_source_literal(l))
}

pub open spec fn statement_literal(s: StmtModel) -> LitModel {
    match s {
        StmtModel::Expression(ExprModel::Literal(l)) => l,
        StmtModel::Print(ExprModel::Literal(l)) => l,
        _ => LitModel::Nil,
    }
}

/// Where the literal's token stands among the statement's tokens.
pub open spec fn literal_position(s: StmtModel) -> nat {
    if s is Print { 1 } else { 0 }
}

/// The kinds of the tokens that such a statement's text scans to.
pub open spec fn statement_kinds(s: StmtModel) -> Seq<TokenType> {
    let k = literal_kind(statement_literal(s));
    if s is Print {
        seq![TokenType::Print, k, TokenType::Semicolon, TokenType::EOF]
    } else {
        seq![k, TokenType::Semicolon, TokenType::EOF]
    }
}

pub proof fn lemma_parse_literal_statement(ts: Seq<TokenModel>, s: StmtModel)
    requires
        is_literal_statement(s),
        ts.len() == statement_kinds(s).len(),
        forall|i: int| 0 <= i < ts.len() ==> #[trigger] ts[i].kind == statement_kinds(s)[i],
        token_of_literal(ts[literal_position(s) as int], statement_literal(s)),
    ensures
        program(ts, 0) == Ok::<Seq<StmtModel>, crate::parse_error::ParseError>(seq![s]),
{
    reveal(program);
    reveal(declaration);
    reveal(statement);
    reveal(print_statement);
    reveal(expression_statement);
    let l = statement_literal(s);
    let n = ts.len();
    assert(ts[n - 1].kind == TokenType::EOF);
    if s is Print {
        assert(ts[0].kind == TokenType::Print);
        assert(ts[2].kind == TokenType::Semicolon);
        lemma_parse_literal(ts, 1, l);
        assert(print_statement(ts, 1) == Ok::<(StmtModel, nat), crate::parse_error::ParseError>((s, 3)));
        assert(statement(ts, 0) == print_statement(ts, 1));
        assert(declaration(ts, 0) == statement(ts, 0));
        assert(program(ts, 3) == Ok::<Seq<StmtModel>, crate::parse_error::ParseError>(Seq::empty()));
    } else {
        assert(ts[0].kind == literal_kind(l));
        assert(ts[1].kind == TokenType::Semicolon);
        lemma_parse_literal(ts, 0, l);
        assert(expression_statement(ts, 0) == Ok::<(StmtModel, nat), crate::parse_error::ParseError>((s, 2)));
        assert(statement(ts, 0) == expression_statement(ts, 0));
        assert(declaration(ts, 0) == statement(ts, 0));
        assert(program(ts, 2) == Ok::<Seq<StmtModel>, crate::parse_error::ParseError>(Seq::empty()));
    }
    assert(seq![s] + Seq::<StmtModel>::empty() =~= seq![s]);
}

/// A reserved word at `i..j`, followed by something that is no letter or
/// digit, reads as the token of its kind.
pub proof fn lemma_lex_keyword(src: Seq<char>, i: nat, j: nat, line: nat, kind: TokenType)
    requires
        i < j < src.len(),
        forall|k: int| i <= k < j ==> is_alpha(#[trigger] src[k]),
        !is_alpha(src[j as int]),
        !crate::number::is_digit(src[j as int]),
        keyword(src.subrange(i as int, j as int)) == Some(kind),
    ensures
        lex_one(src, i, line) == lexed_token(kind, src, i, j, line),
{
    lemma_word_end(src, i + 1, j);
    assert(is_alpha(src[i as int]));
}

pub proof fn lemma_reveal_words()
    ensures
        "and"@ =~= seq!['a', 'n', 'd'],
        "class"@ =~= seq!['c', 'l', 'a', 's', 's'],
        "else"@ =~= seq!['e', 'l', 's', 'e'],
        "false"@ =~= seq!['f', 'a', 'l', 's', 'e'],
        "for"@ =~= seq!['f', 'o', 'r'],
        "fun"@ =~= seq!['f', 'u', 'n'],
        "if"@ =~= seq!['i', 'f'],
        "nil"@ =~= seq!['n', 'i', 'l'],
        "or"@ =~= seq!['o', 'r'],
        "print"@ =~= seq!['p', 'r', 'i', 'n', 't'],
        "return"@ =~= seq!['r', 'e', 't', 'u', 'r', 'n'],
        "super"@ =~= seq!['s', 'u', 'p', 'e', 'r'],
        "this"@ =~= seq!['t', 'h', 'i', 's'],
        "true"@ =~= seq!['t', 'r', 'u', 'e'],
        "var"@ =~= seq!['v', 'a', 'r'],
        "while"@ =~= seq!['w', 'h', 'i', 'l', 'e'],
        "print "@ =~= seq!['p', 'r', 'i', 'n', 't', ' '],
        ";"@ =~= seq![';'],
{
    reveal_strlit("and");
    reveal_strlit("class");
    reveal_strlit("else");
    reveal_strlit("false");
    reveal_strlit("for");
    reveal_strlit("fun");
    reveal_strlit("if");
    reveal_strlit("nil");
    reveal_strlit("or");
    reveal_strlit("print");
    reveal_strlit("return");
    reveal_strlit("super");
    reveal_strlit("this");
    reveal_strlit("true");
    reveal_strlit("var");
    reveal_strlit("while");
    reveal_strlit("print ");
    reveal_strlit(";");
}

pub proof fn lemma_string_end(src: Seq<char>, i: nat, j: nat, line: nat)
    requires
        i <= j < src.len(),
        forall|k: int| i <= k < j ==> #[trigger] src[k] != '"',
        src[j as int] == '"',
    ensures
        string_end(src, i, line).0 == j,
    decreases j - i,
{
    if i < j {
        lemma_string_end(src, i + 1, j, if src[i as int] == '\n' { line + 1 } else { line });
    }
}

#[verifier::spinoff_prover]
pub proof fn lemma_word_literal_text(l: LitModel)
    requires
        is_word_literal(l),
    ensures
        lit_text(l).len() > 0,
        keyword(lit_text(l)) == Some(literal_kind(l)),
        forall|k: int| 0 <= k < lit_text(l).len() ==> is_alpha(#[trigger] lit_text(l)[k]),
{
    lemma_reveal_words();
}

/// A closing `;` scans to its token alone.
pub proof fn lemma_scan_semicolon(src: Seq<char>, line: nat)
    requires
        src.len() > 0,
        src.last() == ';',
    ensures
        scan(src, (src.len() - 1) as nat, line).errors.len() == 0,
        scan(src, (src.len() - 1) as nat, line).tokens.len() == 1,
        scan(src, (src.len() - 1) as nat, line).tokens[0].kind == TokenType::Semicolon,
{
    let b = (src.len() - 1) as nat;
    let end = scan(src, b + 1, line);
    assert(end.tokens.len() == 0 && end.errors.len() == 0);
    assert(lex_one(src, b, line) == lexed_token(TokenType::Semicolon, src, b, b + 1, line));
}

/// The text of a literal of `is_source_literal` at `a`, followed by a closing
/// `;`, scans to the literal's token and the `;`.
#[verifier::spinoff_prover]
pub proof fn lemma_scan_literal_semicolon(src: Seq<char>, a: nat, l: LitModel)
    requires
        is_source_literal(l),
        a <= src.len(),
        src == src.take(a as int) + lit_text(l) + seq![';'],
    ensures
        scan(src, a, 1).errors.len() == 0,
        scan(src, a, 1).tokens.len() == 2,
        token_of_literal(scan(src, a, 1).tokens[0], l),
        scan(src, a, 1).tokens[1].kind == TokenType::Semicolon,
{
    let w = lit_text(l);
    let b = (src.len() - 1) as nat;
    assert(src.len() == a + w.len() + 1);
    assert(src.last() == ';');
    assert(forall|k: int| a <= k < b ==> #[trigger] src[k] == w[k - a]);
    if is_word_literal(l) {
        lemma_word_literal_text(l);
        assert(src.subrange(a as int, b as int) =~= w);
        lemma_lex_keyword(src, a, b, 1, literal_kind(l));
        lemma_scan_semicolon(src, 1);
    } else {
        let v = l->Str_0;
        assert(w == seq!['"'] + v + seq!['"']);
        assert(src[a as int] == '"');
        assert(src[b - 1] == '"');
        assert(forall|k: int| a + 1 <= k < b - 1 ==> #[trigger] src[k] == v[k - a - 1]);
        lemma_string_end(src, a + 1, (b - 1) as nat, 1);
        let (e, l2) = string_end(src, a + 1, 1);
        assert(src.subrange(a + 1 as int, e as int) =~= v);
        lemma_scan_semicolon(src, l2);
    }
}

#[verifier::spinoff_prover]
pub proof fn lemma_scan_literal_statement(s: StmtModel)
    requires
        is_literal_statement(s),
    ensures
        scan(stmt_text(s), 0, 1).errors.len() == 0,
        scan(stmt_text(s), 0, 1).tokens.len() + 1 == statement_kinds(s).len(),
        forall|i: int| 0 <= i < scan(stmt_text(s), 0, 1).tokens.len()
            ==> #[trigger] scan(stmt_text(s), 0, 1).tokens[i].kind == statement_kinds(s)[i],
        token_of_literal(scan(stmt_text(s), 0, 1).tokens[literal_position(s) as int], statement_literal(s)),
{
    let l = statement_literal(s);
    let w = lit_text(l);
    let src = stmt_text(s);
    reveal_strlit(";");
    if s is Print {
        lemma_reveal_words();
        assert(src =~= "print "@ + w + ";"@);
        assert(src =~= src.take(6) + w + seq![';']);
        lemma_scan_literal_semicolon(src, 6, l);
        assert(src.subrange(0, 5) =~= "print"@);
        lemma_lex_keyword(src, 0, 5, 1, TokenType::Print);
        assert(lex_one(src, 5, 1) == lexed_nothing(6, 1));
        assert(scan(src, 5, 1) == scan(src, 6, 1));
        let all = scan(src, 0, 1);
        assert(all.tokens.len() == 3 && all.tokens[0].kind == TokenType::Print);
    } else {
        assert(src =~= w + ";"@);
        assert(src =~= src.take(0) + w + seq![';']);
        lemma_scan_literal_semicolon(src, 0, l);
    }
}

/// A statement that prints or evaluates `nil`, `true`, `false` or a string
/// without a `"`, written back as its source text, scans without error and
/// parses as that statement again.
pub proof fn literal_statement_reads_back(s: StmtModel)
    requires
        is_literal_statement(s),
    ensures
        scan(stmt_text(s), 0, 1).errors.len() == 0,
        source_program(stmt_text(s)) == Ok::<Seq<StmtModel>, crate::parse_error::ParseError>(seq![s]),
{
    lemma_scan_literal_statement(s);
    let ts = source_tokens(stmt_text(s));
    let sc = scan(stmt_text(s), 0, 1);
    assert(ts.len() == statement_kinds(s).len());
    assert forall|i: int| 0 <= i < ts.len() implies #[trigger] ts[i].kind == statement_kinds(s)[i] by {
        if i < sc.tokens.len() {
            assert(ts[i] == sc.tokens[i]);
        }
    }
    assert(ts[literal_position(s) as int] == sc.tokens[literal_position(s) as int]);
    lemma_parse_literal_statement(ts, s);
}

} // verus!
