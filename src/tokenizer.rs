//! The scanner: source text to tokens, in a single pass.
use vstd::prelude::*;
use crate::number::{Number, is_digit, literal_value};
use crate::token::token::{Literal, LiteralModel, Token, TokenModel};
use crate::token::token_type::TokenType;
use crate::token::unexpected_token_error::{UnexpectedTokenError, line_error, line_error_text, unexpected_character_text};

verus! {

/// What went wrong at a place in the source.
#[derive(Clone, Copy, Debug, PartialEq, Eq, Structural)]
pub enum ScanError {
    UnexpectedCharacter(char),
    UnterminatedString,
}

/// A lexical error and the line it was found on.
#[derive(Clone, Copy, Debug, PartialEq, Eq, Structural)]
pub struct ScanDiagnostic {
    pub line: usize,
    pub error: ScanError,
}

pub open spec fn diagnostic_text(line: nat, e: ScanError) -> Seq<char> {
    match e {
        ScanError::UnexpectedCharacter(c) => unexpected_character_text(line, c),
        ScanError::UnterminatedString => line_error_text(line, "Unterminated string."@),
    }
}

impl ScanDiagnostic {
    /// The line written to standard error for this diagnostic.
    pub fn message(&self) -> (r: String)
        ensures
            r@ == diagnostic_text(self.line as nat, self.error),
    {
        match self.error {
            ScanError::UnexpectedCharacter(c) => UnexpectedTokenError { line: self.line, token: c }.message(),
            ScanError::UnterminatedString => line_error(self.line, "Unterminated string."),
        }
    }
}

pub open spec fn is_alpha(c: char) -> bool {
    ('a' <= c && c <= 'z') || ('A' <= c && c <= 'Z') || c == '_'
}

pub open spec fn is_alpha_numeric(c: char) -> bool {
    is_alpha(c) || is_digit(c)
}

/// The kind of a reserved word, if `text` is one.
pub open spec fn keyword(text: Seq<char>) -> Option<TokenType> {
    if text == "and"@ { Some(TokenType::And) }
    else if text == "class"@ { Some(TokenType::Class) }
    else if text == "else"@ { Some(TokenType::Else) }
    else if text == "false"@ { Some(TokenType::False) }
    else if text == "for"@ { Some(TokenType::For) }
    else if text == "fun"@ { Some(TokenType::Fun) }
    else if text == "if"@ { Some(TokenType::If) }
    else if text == "nil"@ { Some(TokenType::Nil) }
    else if text == "or"@ { Some(TokenType::Or) }
    else if text == "print"@ { Some(TokenType::Print) }
    else if text == "return"@ { Some(TokenType::Return) }
    else if text == "super"@ { Some(TokenType::Super) }
    else if text == "this"@ { Some(TokenType::This) }
    else if text == "true"@ { Some(TokenType::True) }
    else if text == "var"@ { Some(TokenType::Var) }
    else if text == "while"@ { Some(TokenType::While) }
    else { None }
}

/// The first position at or after `i` that holds a newline, or the end.
pub open spec fn comment_end(src: Seq<char>, i: nat) -> nat
    decreases src.len() - i,
{
    if i >= src.len() || src[i as int] == '\n' { i } else { comment_end(src, i + 1) }
}

/// The first position at or after `i` that holds no digit, or the end.
pub open spec fn digits_end(src: Seq<char>, i: nat) -> nat
    decreases src.len() - i,
{
    if i >= src.len() || !is_digit(src[i as int]) { i } else { digits_end(src, i + 1) }
}

/// The first position at or after `i` that holds no letter, digit or `_`.
pub open spec fn word_end(src: Seq<char>, i: nat) -> nat
    decreases src.len() - i,
{
    if i >= src.len() || !is_alpha_numeric(src[i as int]) { i } else { word_end(src, i + 1) }
}

/// The position of the first `"` at or after `i` (or the end), and the line
/// reached there from `line`.
pub open spec fn string_end(src: Seq<char>, i: nat, line: nat) -> (nat, nat)
    decreases src.len() - i,
{
    if i >= src.len() || src[i as int] == '"' {
        (i, line)
    } else {
        string_end(src, i + 1, if src[i as int] == '\n' { line + 1 } else { line })
    }
}

/// The effect of reading one lexeme: where reading goes on, on which line,
/// and the token or the error it gives.
pub struct Lexed {
    pub next: nat,
    pub line: nat,
    pub token: Option<TokenModel>,
    pub error: Option<ScanError>,
}

pub open spec fn plain_token(kind: TokenType, src: Seq<char>, start: nat, next: nat, line: nat) -> TokenModel {
    TokenModel { kind, lexeme: src.subrange(start as int, next as int), literal: None, line }
}

pub open spec fn lexed_token(kind: TokenType, src: Seq<char>, start: nat, next: nat, line: nat) -> Lexed {
    Lexed { next, line, token: Some(plain_token(kind, src, start, next, line)), error: None }
}

pub open spec fn lexed_nothing(next: nat, line: nat) -> Lexed {
    Lexed { next, line, token: None, error: None }
}

/// One or two characters: the second is taken when it is `=`.
pub open spec fn lex_pair(src: Seq<char>, start: nat, line: nat, one: TokenType, two: TokenType) -> Lexed {
    if start + 1 < src.len() && src[start + 1 as int] == '=' {
        lexed_token(two, src, start, start + 2, line)
    } else {
        lexed_token(one, src, start, start + 1, line)
    }
}

/// A string literal whose opening quote stands at `start`.
pub open spec fn lex_string(src: Seq<char>, start: nat, line: nat) -> Lexed {
    let (e, l) = string_end(src, start + 1, line);
    if e >= src.len() {
        Lexed { next: e, line: l, token: None, error: Some(ScanError::UnterminatedString) }
    } else {
        Lexed {
            next: e + 1,
            line: l,
            token: Some(TokenModel {
                kind: TokenType::String,
                lexeme: src.subrange(start as int, e + 1 as int),
                literal: Some(LiteralModel::Str(src.subrange(start + 1 as int, e as int))),
                line,
            }),
            error: None,
        }
    }
}

/// Where the fractional part of a number starting at `start` begins: after
/// the integer digits, a `.` followed by a digit.
pub open spec fn number_point(src: Seq<char>, start: nat) -> nat {
    digits_end(src, start)
}

pub open spec fn number_has_fraction(src: Seq<char>, start: nat) -> bool {
    let p = number_point(src, start);
    p + 1 < src.len() && src[p as int] == '.' && is_digit(src[p + 1 as int])
}

pub open spec fn number_end(src: Seq<char>, start: nat) -> nat {
    if number_has_fraction(src, start) {
        digits_end(src, number_point(src, start) + 1)
    } else {
        number_point(src, start)
    }
}

/// A number literal whose first digit stands at `start`.
pub open spec fn lex_number(src: Seq<char>, start: nat, line: nat) -> Lexed {
    let p = number_point(src, start);
    let e = number_end(src, start);
    let whole = src.subrange(start as int, p as int);
    let frac = if number_has_fraction(src, start) { src.subrange(p + 1 as int, e as int) } else { Seq::empty() };
    Lexed {
        next: e,
        line,
        token: Some(TokenModel {
            kind: TokenType::Number,
            lexeme: src.subrange(start as int, e as int),
            literal: Some(LiteralModel::Number(literal_value(whole, frac))),
            line,
        }),
        error: None,
    }
}

/// An identifier or a reserved word whose first letter stands at `start`.
pub open spec fn lex_word(src: Seq<char>, start: nat, line: nat) -> Lexed {
    let e = word_end(src, start + 1);
    let text = src.subrange(start as int, e as int);
    let kind = match keyword(text) {
        Some(k) => k,
        None => TokenType::Identifier,
    };
    lexed_token(kind, src, start, e, line)
}

/// The lexeme that starts at `start < src.len()`.
pub open spec fn lex_one(src: Seq<char>, start: nat, line: nat) -> Lexed {
    let c = src[start as int];
    let next = start + 1;
    if c == '(' { lexed_token(TokenType::LeftParen, src, start, next, line) }
    else if c == ')' { lexed_token(TokenType::RightParen, src, start, next, line) }
    else if c == '{' { lexed_token(TokenType::LeftBrace, src, start, next, line) }
    else if c == '}' { lexed_token(TokenType::RightBrace, src, start, next, line) }
    else if c == ',' { lexed_token(TokenType::Comma, src, start, next, line) }
    else if c == '.' { lexed_token(TokenType::Dot, src, start, next, line) }
    else if c == '-' { lexed_token(TokenType::Minus, src, start, next, line) }
    else if c == '+' { lexed_token(TokenType::Plus, src, start, next, line) }
    else if c == ';' { lexed_token(TokenType::Semicolon, src, start, next, line) }
    else if c == '*' { lexed_token(TokenType::Star, src, start, next, line) }
    else if c == '!' { lex_pair(src, start, line, TokenType::Bang, TokenType::BangEqual) }
    else if c == '=' { lex_pair(src, start, line, TokenType::Equal, TokenType::EqualEqual) }
    else if c == '<' { lex_pair(src, start, line, TokenType::Less, TokenType::LessEqual) }
    else if c == '>' { lex_pair(src, start, line, TokenType::Greater, TokenType::GreaterEqual) }
    else if c == '/' {
        if next < src.len() && src[next as int] == '/' {
            lexed_nothing(comment_end(src, next + 1), line)
        } else {
            lexed_token(TokenType::Slash, src, start, next, line)
        }
    }
    else if c == ' ' || c == '\r' || c == '\t' { lexed_nothing(next, line) }
    else if c == '\n' { lexed_nothing(next, line + 1) }
    else if c == '"' { lex_string(src, start, line) }
    else if is_digit(c) { lex_number(src, start, line) }
    else if is_alpha(c) { lex_word(src, start, line) }
    else { Lexed { next, line, token: None, error: Some(ScanError::UnexpectedCharacter(c)) } }
}

pub proof fn lemma_ends(src: Seq<char>, i: nat, line: nat)
    ensures
        i <= comment_end(src, i),
        i <= src.len() ==> comment_end(src, i) <= src.len(),
        i <= digits_end(src, i),
        i <= src.len() ==> digits_end(src, i) <= src.len(),
        i <= word_end(src, i),
        i <= src.len() ==> word_end(src, i) <= src.len(),
        i <= string_end(src, i, line).0,
        i <= src.len() ==> string_end(src, i, line).0 <= src.len(),
        line <= string_end(src, i, line).1,
        string_end(src, i, line).1 - line <= string_end(src, i, line).0 - i,
    decreases src.len() - i,
{
    if i < src.len() {
        lemma_ends(src, i + 1, line);
        lemma_ends(src, i + 1, line + 1);
    }
}

/// Each lexeme moves reading forward, and adds no more lines than characters.
pub proof fn lemma_lex_advances(src: Seq<char>, start: nat, line: nat)
    requires
        start < src.len(),
    ensures
        start < lex_one(src, start, line).next <= src.len(),
        line <= lex_one(src, start, line).line,
        lex_one(src, start, line).line - line <= lex_one(src, start, line).next - start,
{
    lemma_ends(src, start + 1, line);
    lemma_ends(src, start + 2, line);
    let p = digits_end(src, start);
    lemma_ends(src, start, line);
    lemma_ends(src, p + 1, line);
}

/// What scanning from `pos` on `line` gives: its tokens, its diagnostics
/// (with their lines) and the line reached at the end.
pub struct Scanned {
    pub tokens: Seq<TokenModel>,
    pub errors: Seq<(nat, ScanError)>,
    pub line: nat,
}

pub open spec fn scan(src: Seq<char>, pos: nat, line: nat) -> Scanned
    decreases src.len() - pos,
{
    if pos >= src.len() {
        Scanned { tokens: Seq::empty(), errors: Seq::empty(), line }
    } else {
        let l = lex_one(src, pos, line);
        proof {
            lemma_lex_advances(src, pos, line);
        }
        let rest = scan(src, l.next, l.line);
        Scanned {
            tokens: match l.token {
                Some(t) => seq![t] + rest.tokens,
                None => rest.tokens,
            },
            errors: match l.error {
                Some(e) => seq![(line, e)] + rest.errors,
                None => rest.errors,
            },
            line: rest.line,
        }
    }
}

pub proof fn lemma_word_end(src: Seq<char>, i: nat, j: nat)
    requires
        i <= j <= src.len(),
        forall|k: int| i <= k < j ==> is_alpha_numeric(#[trigger] src[k]),
        j == src.len() || !is_alpha_numeric(src[j as int]),
    ensures
        word_end(src, i) == j,
    decreases j - i,
{
    if i < j {
        lemma_word_end(src, i + 1, j);
    }
}

/// No lexeme gives an end-of-input token.
pub proof fn lemma_scan_has_no_eof(src: Seq<char>, pos: nat, line: nat)
    ensures
        forall|i: int| 0 <= i < scan(src, pos, line).tokens.len() ==> #[trigger] scan(src, pos, line).tokens[i].kind != TokenType::EOF,
    decreases src.len() - pos,
{
    if pos < src.len() {
        lemma_lex_advances(src, pos, line);
        let l = lex_one(src, pos, line);
        lemma_scan_has_no_eof(src, l.next, l.line);
        let rest = scan(src, l.next, l.line);
        if let Some(t) = l.token {
            assert(t.kind != TokenType::EOF);
            assert forall|i: int| 0 <= i < scan(src, pos, line).tokens.len() implies #[trigger] scan(src, pos, line).tokens[i].kind != TokenType::EOF by {
                if i > 0 {
                    assert(scan(src, pos, line).tokens[i] == rest.tokens[i - 1]);
                }
            }
        }
    }
}

/// The end-of-input token on `line`.
pub open spec fn eof_token(line: nat) -> TokenModel {
    TokenModel { kind: TokenType::EOF, lexeme: Seq::empty(), literal: None, line }
}

/// The whole token sequence of `src`: its tokens, then the end-of-input token.
pub open spec fn scan_all(src: Seq<char>) -> Seq<TokenModel> {
    let s = scan(src, 0, 1);
    s.tokens.push(eof_token(s.line))
}

pub open spec fn tokens_view(v: Seq<Token>) -> Seq<TokenModel> {
    v.map_values(|t: Token| t@)
}

pub open spec fn diagnostics_view(v: Seq<ScanDiagnostic>) -> Seq<(nat, ScanError)> {
    v.map_values(|d: ScanDiagnostic| (d.line as nat, d.error))
}

/// The characters of `s`, in order.
pub fn chars_of(s: &str) -> (v: Vec<char>)
    ensures
        v@ == s@,
{
    broadcast use vstd::string::group_string_axioms;
    let mut v: Vec<char> = Vec::new();
    for c in it: s.chars()
        invariant
            it.seq() == s@,
            v@ == it.seq().take(it.index()),
    {
        assert(it.seq().take(it.index() + 1) =~= v@.push(c));
        v.push(c);
    }
    assert(v@ =~= s@);
    v
}

/// The characters `src[from..to]` as a string.
pub fn text_of(src: &Vec<char>, from: usize, to: usize) -> (r: String)
    requires
        from <= to <= src.len(),
    ensures
        r@ == src@.subrange(from as int, to as int),
{
    let mut s = String::new();
    let mut i = from;
    while i < to
        invariant
            from <= i <= to <= src.len(),
            s@ == src@.subrange(from as int, i as int),
        decreases to - i,
    {
        s.push(src[i]);
        i = i + 1;
        assert(s@ =~= src@.subrange(from as int, i as int));
    }
    s
}

pub fn is_digit_char(c: char) -> (r: bool)
    ensures
        r == is_digit(c),
{
    '0' <= c && c <= '9'
}

pub fn is_alpha_char(c: char) -> (r: bool)
    ensures
        r == is_alpha(c),
{
    ('a' <= c && c <= 'z') || ('A' <= c && c <= 'Z') || c == '_'
}

pub fn is_alpha_numeric_char(c: char) -> (r: bool)
    ensures
        r == is_alpha_numeric(c),
{
    is_alpha_char(c) || is_digit_char(c)
}

fn is_word(text: &String, word: &str) -> (r: bool)
    ensures
        r == (text@ == word@),
{
    text.eq(&String::from_str(word))
}

/// The kind of token that the word `text` gives.
pub fn keyword_kind(text: &String) -> (r: TokenType)
    ensures
        r == (match keyword(text@) {
            Some(k) => k,
            None => TokenType::Identifier,
        }),
{
    if is_word(text, "and") { TokenType::And }
    else if is_word(text, "class") { TokenType::Class }
    else if is_word(text, "else") { TokenType::Else }
    else if is_word(text, "false") { TokenType::False }
    else if is_word(text, "for") { TokenType::For }
    else if is_word(text, "fun") { TokenType::Fun }
    else if is_word(text, "if") { TokenType::If }
    else if is_word(text, "nil") { TokenType::Nil }
    else if is_word(text, "or") { TokenType::Or }
    else if is_word(text, "print") { TokenType::Print }
    else if is_word(text, "return") { TokenType::Return }
    else if is_word(text, "super") { TokenType::Super }
    else if is_word(text, "this") { TokenType::This }
    else if is_word(text, "true") { TokenType::True }
    else if is_word(text, "var") { TokenType::Var }
    else if is_word(text, "while") { TokenType::While }
    else { TokenType::Identifier }
}

pub proof fn lemma_digits_end_all_digits(src: Seq<char>, i: nat)
    ensures
        forall|k: int| i <= k < digits_end(src, i) ==> is_digit(#[trigger] src[k]),
    decreases src.len() - i,
{
    if i < src.len() && is_digit(src[i as int]) {
        lemma_digits_end_all_digits(src, i + 1);
    }
}

/// Reads a source text into tokens.
pub struct Tokenizer<'a> {
    pub source: &'a str,
    pub line: usize,
    pub current: usize,
    pub start: usize,
    pub tokens: Vec<Token>,
    pub exit_code: u8,
    pub errors: Vec<ScanDiagnostic>,
}

/// `t1` is `t0` after reading the lexeme that `l` describes.
pub open spec fn stepped<'a>(t0: Tokenizer<'a>, t1: Tokenizer<'a>, l: Lexed) -> bool {
    &&& t1.source == t0.source
    &&& t1.start == t0.start
    &&& t1.current as nat == l.next
    &&& t1.line as nat == l.line
    &&& tokens_view(t1.tokens@) == match l.token {
        Some(t) => tokens_view(t0.tokens@).push(t),
        None => tokens_view(t0.tokens@),
    }
    &&& diagnostics_view(t1.errors@) == match l.error {
        Some(e) => diagnostics_view(t0.errors@).push((t0.line as nat, e)),
        None => diagnostics_view(t0.errors@),
    }
    &&& t1.exit_code == if l.error is Some { 65u8 } else { t0.exit_code }
}

impl<'a> Default for Tokenizer<'a> {
    fn default() -> (r: Tokenizer<'a>)
        ensures
            r.source@ == Seq::<char>::empty(),
            r.line == 1,
            r.current == 0,
            r.start == 0,
            r.tokens@ == Seq::<Token>::empty(),
            r.exit_code == 0,
            r.errors@ == Seq::<ScanDiagnostic>::empty(),
    {
        proof {
            reveal_strlit("");
        }
        Tokenizer {
            source: "",
            line: 1,
            current: 0,
            start: 0,
            tokens: Vec::new(),
            exit_code: 0,
            errors: Vec::new(),
        }
    }
}

impl<'a> Tokenizer<'a> {
    /// Reads the whole source from the current position, then adds the
    /// end-of-input token; returns `65` if a lexical error was found, else
    /// the status held before.
    pub fn scan_tokens(&mut self) -> (code: u8)
        requires
            old(self).line + old(self).source@.len() <= usize::MAX,
        ensures
            ({
                let s = scan(old(self).source@, old(self).current as nat, old(self).line as nat);
                &&& tokens_view(final(self).tokens@) == tokens_view(old(self).tokens@) + s.tokens.push(eof_token(s.line))
                &&& diagnostics_view(final(self).errors@) == diagnostics_view(old(self).errors@) + s.errors
                &&& final(self).exit_code == if s.errors.len() > 0 { 65u8 } else { old(self).exit_code }
            }),
            code == final(self).exit_code,
            final(self).source == old(self).source,
    {
        let src = chars_of(self.source);
        let ghost s0 = scan(src@, self.current as nat, self.line as nat);
        let ghost t0 = tokens_view(self.tokens@);
        let ghost e0 = diagnostics_view(self.errors@);
        assert(t0 + s0.tokens =~= t0 + s0.tokens);
        while self.current < src.len()
            invariant
                src@ == self.source@,
                self.source == old(self).source,
                self.current <= src.len() ==> self.line + (src.len() - self.current) <= usize::MAX,
                tokens_view(self.tokens@) + scan(src@, self.current as nat, self.line as nat).tokens == t0 + s0.tokens,
                diagnostics_view(self.errors@) + scan(src@, self.current as nat, self.line as nat).errors == e0 + s0.errors,
                scan(src@, self.current as nat, self.line as nat).line == s0.line,
                self.exit_code == if self.errors.len() > old(self).errors.len() { 65u8 } else { old(self).exit_code },
                self.errors.len() >= old(self).errors.len(),
                e0 == diagnostics_view(old(self).errors@),
            decreases src.len() - self.current,
        {
            self.start = self.current;
            let ghost before = *self;
            let ghost l = lex_one(src@, self.current as nat, self.line as nat);
            proof {
                lemma_lex_advances(src@, self.current as nat, self.line as nat);
            }
            self.scan_token(&src);
            proof {
                let rest = scan(src@, l.next, l.line);
                assert(tokens_view(self.tokens@) + rest.tokens =~= tokens_view(before.tokens@) + scan(src@, before.current as nat, before.line as nat).tokens);
                assert(diagnostics_view(self.errors@) + rest.errors =~= diagnostics_view(before.errors@) + scan(src@, before.current as nat, before.line as nat).errors);
                assert(diagnostics_view(self.errors@).len() == self.errors.len());
                assert(diagnostics_view(before.errors@).len() == before.errors.len());
            }
        }
        let line = self.line;
        let ghost before = tokens_view(self.tokens@);
        self.tokens.push(Token { token_type: TokenType::EOF, lexeme: String::new(), literal: None, line });
        proof {
            assert(tokens_view(self.tokens@) =~= before.push(eof_token(line as nat)));
            assert(tokens_view(self.tokens@) =~= t0 + s0.tokens.push(eof_token(s0.line)));
            assert(diagnostics_view(self.errors@) =~= e0 + s0.errors);
            assert(diagnostics_view(self.errors@).len() == self.errors.len());
            assert(diagnostics_view(old(self).errors@).len() == old(self).errors.len());
        }
        self.exit_code
    }

    fn is_at_end(&self, src: &Vec<char>) -> (r: bool)
        ensures
            r == (self.current >= src.len()),
    {
        self.current >= src.len()
    }

    fn match_expected(&mut self, src: &Vec<char>, expected: char) -> (r: bool)
        ensures
            r == (old(self).current < src.len() && src@[old(self).current as int] == expected),
            final(self).current == if r { old(self).current + 1 } else { old(self).current as int },
            final(self).line == old(self).line,
            final(self).start == old(self).start,
            final(self).source == old(self).source,
            final(self).tokens == old(self).tokens,
            final(self).errors == old(self).errors,
            final(self).exit_code == old(self).exit_code,
    {
        if self.is_at_end(src) {
            return false;
        }
        if src[self.current] != expected {
            return false;
        }
        self.current = self.current + 1;
        true
    }

    fn peek(&self, src: &Vec<char>) -> (r: Option<char>)
        ensures
            r == if self.current < src.len() { Some(src@[self.current as int]) } else { None },
    {
        if self.is_at_end(src) {
            return None;
        }
        Some(src[self.current])
    }

    fn peek_next(&self, src: &Vec<char>) -> (r: Option<char>)
        ensures
            r == if self.current + 1 < src.len() { Some(src@[self.current + 1]) } else { None },
    {
        if self.current >= src.len() || self.current + 1 >= src.len() {
            return None;
        }
        Some(src[self.current + 1])
    }

    fn add_token(&mut self, src: &Vec<char>, token_type: TokenType, literal: Option<Literal>, line: usize)
        requires
            old(self).start <= old(self).current <= src.len(),
        ensures
            tokens_view(final(self).tokens@) == tokens_view(old(self).tokens@).push(TokenModel {
                kind: token_type,
                lexeme: src@.subrange(old(self).start as int, old(self).current as int),
                literal: match literal {
                    Some(l) => Some(l@),
                    None => None,
                },
                line: line as nat,
            }),
            final(self).current == old(self).current,
            final(self).line == old(self).line,
            final(self).start == old(self).start,
            final(self).source == old(self).source,
            final(self).errors == old(self).errors,
            final(self).exit_code == old(self).exit_code,
    {
        let lexeme = text_of(src, self.start, self.current);
        let ghost before = tokens_view(self.tokens@);
        self.tokens.push(Token { token_type, lexeme, literal, line });
        assert(tokens_view(self.tokens@) =~= before.push(self.tokens@.last()@));
    }

    fn error(&mut self, line: usize, error: ScanError)
        ensures
            diagnostics_view(final(self).errors@) == diagnostics_view(old(self).errors@).push((line as nat, error)),
            final(self).exit_code == 65,
            final(self).current == old(self).current,
            final(self).line == old(self).line,
            final(self).start == old(self).start,
            final(self).source == old(self).source,
            final(self).tokens == old(self).tokens,
    {
        let ghost before = diagnostics_view(self.errors@);
        self.errors.push(ScanDiagnostic { line, error });
        assert(diagnostics_view(self.errors@) =~= before.push((line as nat, error)));
        self.exit_code = 65;
    }

    fn string(&mut self, src: &Vec<char>)
        requires
            old(self).start + 1 == old(self).current <= src.len(),
            src@[old(self).start as int] == '"',
            old(self).line + (src.len() - old(self).current) <= usize::MAX,
        ensures
            stepped(*old(self), *final(self), lex_string(src@, old(self).start as nat, old(self).line as nat)),
    {
        let line = self.line;
        while self.current < src.len() && src[self.current] != '"'
            invariant
                old(self).current <= self.current <= src.len(),
                self.line + (src.len() - self.current) <= usize::MAX,
                string_end(src@, self.current as nat, self.line as nat) == string_end(src@, old(self).current as nat, line as nat),
                self.start == old(self).start,
                self.source == old(self).source,
                self.tokens == old(self).tokens,
                self.errors == old(self).errors,
                self.exit_code == old(self).exit_code,
            decreases src.len() - self.current,
        {
            if src[self.current] == '\n' {
                self.line = self.line + 1;
            }
            self.current = self.current + 1;
        }
        proof {
            assert(string_end(src@, self.current as nat, self.line as nat) == (self.current as nat, self.line as nat));
        }
        if self.is_at_end(src) {
            self.error(line, ScanError::UnterminatedString);
            return;
        }
        self.current = self.current + 1;
        let value = text_of(src, self.start + 1, self.current - 1);
        self.add_token(src, TokenType::String, Some(Literal::Str(value)), line);
    }

    fn number(&mut self, src: &Vec<char>)
        requires
            old(self).start + 1 == old(self).current <= src.len(),
            is_digit(src@[old(self).start as int]),
        ensures
            stepped(*old(self), *final(self), lex_number(src@, old(self).start as nat, old(self).line as nat)),
    {
        let ghost start = self.start as nat;
        proof {
            lemma_digits_end_all_digits(src@, start);
            lemma_ends(src@, start, 0);
        }
        while self.current < src.len() && is_digit_char(src[self.current])
            invariant
                old(self).current <= self.current <= src.len(),
                digits_end(src@, self.current as nat) == digits_end(src@, start),
                self.start == old(self).start,
                self.line == old(self).line,
                self.source == old(self).source,
                self.tokens == old(self).tokens,
                self.errors == old(self).errors,
                self.exit_code == old(self).exit_code,
            decreases src.len() - self.current,
        {
            self.current = self.current + 1;
        }
        let point = self.current;
        if self.peek(src) == Some('.') && is_digit_char_opt(self.peek_next(src)) {
            self.current = self.current + 1;
            proof {
                lemma_digits_end_all_digits(src@, self.current as nat);
                lemma_ends(src@, self.current as nat, 0);
            }
            let ghost frac_start = self.current as nat;
            while self.current < src.len() && is_digit_char(src[self.current])
                invariant
                    frac_start <= self.current <= src.len(),
                    digits_end(src@, self.current as nat) == digits_end(src@, frac_start),
                    self.start == old(self).start,
                    self.line == old(self).line,
                    self.source == old(self).source,
                    self.tokens == old(self).tokens,
                    self.errors == old(self).errors,
                    self.exit_code == old(self).exit_code,
                decreases src.len() - self.current,
            {
                self.current = self.current + 1;
            }
        }
        let end = self.current;
        let n = Number::from_decimal(src, self.start, point, end);
        self.add_token(src, TokenType::Number, Some(Literal::Number(n)), self.line);
    }

    fn identifier(&mut self, src: &Vec<char>)
        requires
            old(self).start + 1 == old(self).current <= src.len(),
        ensures
            stepped(*old(self), *final(self), lex_word(src@, old(self).start as nat, old(self).line as nat)),
    {
        while self.current < src.len() && is_alpha_numeric_char(src[self.current])
            invariant
                old(self).current <= self.current <= src.len(),
                word_end(src@, self.current as nat) == word_end(src@, old(self).current as nat),
                self.start == old(self).start,
                self.line == old(self).line,
                self.source == old(self).source,
                self.tokens == old(self).tokens,
                self.errors == old(self).errors,
                self.exit_code == old(self).exit_code,
            decreases src.len() - self.current,
        {
            self.current = self.current + 1;
        }
        let text = text_of(src, self.start, self.current);
        let kind = keyword_kind(&text);
        self.add_token(src, kind, None, self.line);
    }

    /// Reads the lexeme that starts at the current position.
    fn scan_token(&mut self, src: &Vec<char>)
        requires
            old(self).start == old(self).current < src.len(),
            old(self).line + (src.len() - old(self).current) <= usize::MAX,
        ensures
            stepped(*old(self), *final(self), lex_one(src@, old(self).start as nat, old(self).line as nat)),
    {
        let c = src[self.current];
        self.current = self.current + 1;
        let line = self.line;
        match c {
            '(' => self.add_token(src, TokenType::LeftParen, None, line),
            ')' => self.add_token(src, TokenType::RightParen, None, line),
            '{' => self.add_token(src, TokenType::LeftBrace, None, line),
            '}' => self.add_token(src, TokenType::RightBrace, None, line),
            ',' => self.add_token(src, TokenType::Comma, None, line),
            '.' => self.add_token(src, TokenType::Dot, None, line),
            '-' => self.add_token(src, TokenType::Minus, None, line),
            '+' => self.add_token(src, TokenType::Plus, None, line),
            ';' => self.add_token(src, TokenType::Semicolon, None, line),
            '*' => self.add_token(src, TokenType::Star, None, line),
            '!' => {
                let kind = if self.match_expected(src, '=') { TokenType::BangEqual } else { TokenType::Bang };
                self.add_token(src, kind, None, line);
            },
            '=' => {
                let kind = if self.match_expected(src, '=') { TokenType::EqualEqual } else { TokenType::Equal };
                self.add_token(src, kind, None, line);
            },
            '<' => {
                let kind = if self.match_expected(src, '=') { TokenType::LessEqual } else { TokenType::Less };
                self.add_token(src, kind, None, line);
            },
            '>' => {
                let kind = if self.match_expected(src, '=') { TokenType::GreaterEqual } else { TokenType::Greater };
                self.add_token(src, kind, None, line);
            },
            '/' => {
                if self.match_expected(src, '/') {
                    proof {
                        lemma_ends(src@, self.current as nat, 0);
                    }
                    while self.current < src.len() && src[self.current] != '\n'
                        invariant
                            self.current <= src.len(),
                            comment_end(src@, self.current as nat) == comment_end(src@, (old(self).current + 2) as nat),
                            self.start == old(self).start,
                            self.line == old(self).line,
                            self.source == old(self).source,
                            self.tokens == old(self).tokens,
                            self.errors == old(self).errors,
                            self.exit_code == old(self).exit_code,
                        decreases src.len() - self.current,
                    {
                        self.current = self.current + 1;
                    }
                } else {
                    self.add_token(src, TokenType::Slash, None, line);
                }
            },
            ' ' | '\r' | '\t' => {},
            '\n' => {
                self.line = self.line + 1;
            },
            '"' => self.string(src),
            _ => {
                if is_digit_char(c) {
                    self.number(src);
                } else if is_alpha_char(c) {
                    self.identifier(src);
                } else {
                    self.error(line, ScanError::UnexpectedCharacter(c));
                }
            },
        }
    }
}

fn is_digit_char_opt(c: Option<char>) -> (r: bool)
    ensures
        r == (c matches Some(x) && is_digit(x)),
{
    match c {
        Some(x) => is_digit_char(x),
        None => false,
    }
}

} // verus!
