use loxc::expr::{BinaryOp, Expr, Literal, LogicalOp, UnaryOp};
use loxc::interpreter::{Error, Interpreter};
use loxc::parse_error::ParseError;
use loxc::token::token::Token;
use loxc::token::token_type::TokenType;
use loxc::parser::Parser;
use loxc::tokenizer::Tokenizer;
use loxc::{parse_source, tokenize_source};

#[test]
fn token_listing_ends_with_eof() {
    for source in ["", "print 1;", "@", "\"open", "// only a comment", "var x = 1;\n\n"] {
        let report = tokenize_source(source);
        let last = report.stdout.last().unwrap();
        assert!(last.starts_with("EOF"), "{:?}", last);
    }
}

#[test]
fn token_listing_format() {
    let report = tokenize_source("1 3.14 \"abc\" foo and (");
    let expected: Vec<String> = [
        "NUMBER 1 1.0",
        "NUMBER 3.14 3.14",
        "STRING \"abc\" abc",
        "IDENTIFIER foo null",
        "AND and null",
        "LEFT_PAREN ( null",
        "EOF  null",
    ]
    .iter()
    .map(|s| s.to_string())
    .collect();
    assert_eq!(report.stdout, expected);
    assert_eq!(report.exit_code, 0);
}

#[test]
fn two_character_operators_and_comments() {
    let report = tokenize_source("!= == <= >= ! = < > / // gone\n.");
    let kinds: Vec<String> = report.stdout.iter().map(|l| l.split(' ').next().unwrap().to_string()).collect();
    let expected: Vec<String> = [
        "BANG_EQUAL", "EQUAL_EQUAL", "LESS_EQUAL", "GREATER_EQUAL", "BANG", "EQUAL", "LESS", "GREATER", "SLASH", "DOT",
        "EOF",
    ]
    .iter()
    .map(|s| s.to_string())
    .collect();
    assert_eq!(kinds, expected);
}

#[test]
fn trailing_point_is_a_dot() {
    let report = tokenize_source("12.");
    assert_eq!(report.stdout[0], "NUMBER 12 12.0");
    assert_eq!(report.stdout[1], "DOT . null");
}

#[test]
fn unterminated_string_reports_its_opening_line() {
    let report = tokenize_source("\n\"abc\ndef");
    assert_eq!(report.stderr, vec!["[line 2] Error: Unterminated string.".to_string()]);
    assert_eq!(report.exit_code, 65);
    assert_eq!(report.stdout.last().unwrap(), "EOF  null");
}

#[test]
fn scanning_goes_on_after_an_error() {
    let mut tokenizer = Tokenizer { source: "#\n$ 1", ..Default::default() };
    assert_eq!(tokenizer.scan_tokens(), 65);
    assert_eq!(tokenizer.errors.len(), 2);
    assert_eq!(tokenizer.errors[1].line, 2);
    assert_eq!(tokenizer.tokens.len(), 2);
    assert_eq!(tokenizer.tokens[1].line, 2);
}

#[test]
fn parse_listing_shows_precedence() {
    let report = parse_source("(1 + 2) * 3; print -x == !y; a = b or c and \"s\";");
    assert_eq!(report.exit_code, 0);
    assert_eq!(report.stdout[0], "(1.0 + 2.0) * 3.0;");
    assert_eq!(report.stdout[1], "print -x == !y;");
    assert_eq!(report.stdout[2], "a = b or c and \"s\";");
}

#[test]
fn for_loop_becomes_a_while_in_a_block() {
    let report = parse_source("for (var i = 0; i < 1;) print i;");
    assert_eq!(
        report.stdout,
        vec!["{ var i = 0.0; while (i < 1.0) print i; }".to_string()]
    );
}

#[test]
fn missing_brace_is_reported() {
    let report = parse_source("{ print 1;");
    assert_eq!(report.exit_code, 65);
    assert_eq!(report.stderr[0], "Expect '}' after block.");
}

#[test]
fn loop_budget_ends_an_endless_loop() {
    let mut tokenizer = Tokenizer { source: "while (true) {}", ..Default::default() };
    assert_eq!(tokenizer.scan_tokens(), 0);
    let mut parser = Parser { tokens: tokenizer.tokens, current: 0 };
    let statements = parser.parse().ok().unwrap();
    let mut interpreter = Interpreter { budget: 5, ..Default::default() };
    assert_eq!(interpreter.interpret(statements).err(), Some(Error::BudgetExhausted));
    assert_eq!(interpreter.budget, 0);
}

#[test]
fn synchronize_stops_after_a_semicolon() {
    let mut tokenizer = Tokenizer { source: "1 + ; print 2;", ..Default::default() };
    tokenizer.scan_tokens();
    let mut parser = Parser { tokens: tokenizer.tokens, current: 0 };
    parser.synchronize();
    assert_eq!(parser.current, 3);
}

#[test]
fn synchronize_stops_before_a_statement_keyword() {
    let mut tokenizer = Tokenizer { source: "1 + var x;", ..Default::default() };
    tokenizer.scan_tokens();
    let mut parser = Parser { tokens: tokenizer.tokens, current: 0 };
    parser.synchronize();
    assert_eq!(parser.current, 2);
}

#[test]
fn operator_tokens_map_to_operators() {
    let token = |kind: TokenType, text: &str| Token { token_type: kind, lexeme: text.to_string(), literal: None, line: 1 };
    assert_eq!(Parser::token_to_binary_operator(&token(TokenType::LessEqual, "<=")), Ok(BinaryOp::LessEqual));
    assert_eq!(
        Parser::token_to_binary_operator(&token(TokenType::Bang, "!")),
        Err(ParseError::UnexpectedTokenError(TokenType::Bang))
    );
    assert_eq!(Parser::token_to_unary_operator(&token(TokenType::Minus, "-")), Ok(UnaryOp::Minus));
    assert_eq!(
        Parser::token_to_unary_operator(&token(TokenType::Plus, "+")),
        Err(ParseError::UnexpectedTokenError(TokenType::Plus))
    );
}

#[test]
fn long_number_literal_scans_to_a_number() {
    let mut tokenizer = Tokenizer { source: "9999999999999999999", ..Default::default() };
    assert_eq!(tokenizer.scan_tokens(), 0);
    assert_eq!(tokenizer.tokens.len(), 2);
    assert_eq!(tokenizer.tokens[0].token_type, TokenType::Number);
    assert_eq!(tokenizer.tokens[1].token_type, TokenType::EOF);
}

#[test]
fn stray_character_does_not_stop_scanning() {
    let mut tokenizer = Tokenizer { source: "@ 1", ..Default::default() };
    assert_eq!(tokenizer.scan_tokens(), 65);
    let kinds: Vec<TokenType> = tokenizer.tokens.iter().map(|t| t.token_type).collect();
    assert_eq!(kinds, vec![TokenType::Number, TokenType::EOF]);
}

fn reparsed(source: &str) -> (Vec<String>, Vec<String>) {
    let first = parse_source(source);
    assert_eq!(first.exit_code, 0, "{:?}", first.stderr);
    let second = parse_source(&first.stdout.join("\n"));
    assert_eq!(second.exit_code, 0, "{:?}", second.stderr);
    (first.stdout, second.stdout)
}

#[test]
fn literal_programs_read_back_the_same() {
    let (first, second) =
        reparsed("nil; true; false; 2; 3.25; 0.0001; \"hi there\"; print 7; print \"\"; print 0.12345678901234567;");
    assert_eq!(first, second);
    assert_eq!(first[0], "nil;");
    assert_eq!(first[3], "2.0;");
    assert_eq!(first[6], "\"hi there\";");
    assert_eq!(first[9], "print 0.12345678901234567;");
}

#[test]
fn programs_read_back_the_same() {
    let (first, second) = reparsed(
        "var a = 1; var b; { var c = a + 2 * (3 - 1); print -c; } if (a < 2) print a; else { b = !a; } \
         while (a <= 3) a = a + 1; for (var i = 0; i < 3; i = i + 1) print i; print a or b and nil; \
         if (a) if (b) print 1; else print 2; { }",
    );
    assert_eq!(first, second);
}

#[test]
fn unary_operators_on_expressions() {
    let mut interpreter = Interpreter::default();
    let twice_negated = Expr::Unary(
        UnaryOp::Minus,
        Box::new(Expr::Unary(UnaryOp::Minus, Box::new(Expr::Grouping(Box::new(Expr::Literal(Literal::Nil)))))),
    );
    assert!(interpreter.interpret_unary(&twice_negated).is_err());
    let not_not = Expr::Unary(UnaryOp::Bang, Box::new(Expr::Unary(UnaryOp::Bang, Box::new(Expr::Literal(Literal::Nil)))));
    assert_eq!(interpreter.interpret_unary(&not_not).ok().unwrap().to_string(), "false");
}

#[test]
fn logical_operators_skip_the_right_side() {
    let mut interpreter = Interpreter::default();
    let missing = Token { token_type: TokenType::Identifier, lexeme: "missing".to_string(), literal: None, line: 1 };
    let or = Expr::Logical(
        Box::new(Expr::Literal(Literal::True)),
        LogicalOp::Or,
        Box::new(Expr::Variable(missing.clone())),
    );
    assert_eq!(interpreter.interpret_logical(&or).ok().unwrap().to_string(), "true");
    let and = Expr::Logical(Box::new(Expr::Literal(Literal::Nil)), LogicalOp::And, Box::new(Expr::Variable(missing)));
    assert_eq!(interpreter.interpret_logical(&and).ok().unwrap().to_string(), "nil");
}
