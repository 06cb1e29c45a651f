use rlox::ast_printer::AstPrinter;
use rlox::expr::{Expr, LiteralType};
use rlox::grammar::ParseErrorKind;
use rlox::parser::{ParseError, Parser};
use rlox::scanner::Scanner;
use rlox::token::{Token, TokenType};

fn tokens_of(source: &str) -> Vec<Token> {
    let mut scanner = Scanner::new(source);
    scanner.scan_tokens().clone()
}

fn parse_source(source: &str) -> Result<Box<Expr>, ParseError> {
    Parser::new(tokens_of(source)).parse()
}

fn printed(source: &str) -> String {
    let expr = parse_source(source).expect("the source is an expression");
    AstPrinter {}.print(expr)
}

#[test]
fn multiplication_binds_tighter_than_addition() {
    assert_eq!(printed("1 + 2 * 3"), "(+ 1 (* 2 3))");
}

#[test]
fn parentheses_are_kept_as_a_group() {
    assert_eq!(printed("(1 + 2) * 3"), "(* (group (+ 1 2)) 3)");
}

#[test]
fn subtraction_groups_from_the_left() {
    assert_eq!(printed("1 - 2 - 3"), "(- (- 1 2) 3)");
}

#[test]
fn unary_operators_chain_to_the_right() {
    assert_eq!(printed("!!true"), "(! (! true))");
    assert_eq!(printed("--1"), "(- (- 1))");
}

#[test]
fn every_level_of_the_grammar() {
    assert_eq!(
        printed("1 == 2 != 3 < 4 + 5 * -6"),
        "(!= (== 1 2) (< 3 (+ 4 (* 5 (- 6)))))"
    );
    assert_eq!(printed("1 <= 2 >= 3 > 4"), "(> (>= (<= 1 2) 3) 4)");
    assert_eq!(printed("8 / 4 / 2"), "(/ (/ 8 4) 2)");
    assert_eq!(printed("1 - -2"), "(- 1 (- 2))");
}

#[test]
fn literal_keywords_are_distinct_nodes() {
    assert!(matches!(*parse_source("true").unwrap(), Expr::Literal(LiteralType::True)));
    assert!(matches!(*parse_source("false").unwrap(), Expr::Literal(LiteralType::False)));
    assert!(matches!(*parse_source("nil").unwrap(), Expr::Literal(LiteralType::Nil)));
    assert_eq!(printed("true"), "true");
    assert_eq!(printed("false"), "false");
    assert_eq!(printed("nil"), "nil");
}

#[test]
fn number_literal_is_read_from_its_lexeme() {
    assert_eq!(printed("123"), "123");
    assert_eq!(printed("45.67"), "45.67");
    assert_eq!(printed("007.500"), "7.5");
    assert_eq!(printed("2.0"), "2");
}

#[test]
fn string_literal_is_its_body() {
    match *parse_source("\"hello world\"").unwrap() {
        Expr::Literal(LiteralType::String(text)) => assert_eq!(text, "hello world"),
        _ => panic!("a string literal was expected"),
    }
    assert_eq!(printed("\"a\" + \"b\""), "(+ a b)");
}

#[test]
fn missing_right_paren_is_an_error() {
    let error = parse_source("(1 + 2").unwrap_err();
    assert_eq!(error, ParseError { kind: ParseErrorKind::ExpectRightParen, line: 1 });
    assert_eq!(error.message(), "Expect ')' after expression.");
}

#[test]
fn missing_operand_is_an_error() {
    let error = parse_source("(1 + ").unwrap_err();
    assert_eq!(error, ParseError { kind: ParseErrorKind::ExpectExpression, line: 1 });
    assert_eq!(error.message(), "Expect expression.");
    let error = parse_source("1 *\n\n").unwrap_err();
    assert_eq!(error, ParseError { kind: ParseErrorKind::ExpectExpression, line: 3 });
}

#[test]
fn error_is_on_the_line_of_the_unexpected_token() {
    let error = parse_source("(1\n+ 2\n;").unwrap_err();
    assert_eq!(error, ParseError { kind: ParseErrorKind::ExpectRightParen, line: 3 });
}

#[test]
fn empty_source_is_an_error() {
    let error = parse_source("").unwrap_err();
    assert_eq!(error, ParseError { kind: ParseErrorKind::ExpectExpression, line: 1 });
}

#[test]
fn no_tokens_at_all_is_an_error() {
    let error = Parser::new(Vec::new()).parse().unwrap_err();
    assert_eq!(error, ParseError { kind: ParseErrorKind::ExpectExpression, line: 1 });
}

#[test]
fn tokens_without_the_end_marker_are_read_to_the_last() {
    let tokens = vec![
        Token::new(TokenType::Number, String::from("1"), String::from("1"), 1),
        Token::new(TokenType::Plus, String::from("+"), String::new(), 2),
    ];
    let error = Parser::new(tokens).parse().unwrap_err();
    assert_eq!(error, ParseError { kind: ParseErrorKind::ExpectExpression, line: 2 });
    let tokens = vec![
        Token::new(TokenType::Number, String::from("1"), String::from("1"), 1),
        Token::new(TokenType::Plus, String::from("+"), String::new(), 1),
        Token::new(TokenType::Number, String::from("2"), String::from("2"), 1),
    ];
    let expr = Parser::new(tokens).parse().unwrap();
    assert_eq!(AstPrinter {}.print(expr), "(+ 1 2)");
}

#[test]
fn operator_alone_is_an_error() {
    assert_eq!(parse_source("+").unwrap_err().kind, ParseErrorKind::ExpectExpression);
    assert_eq!(parse_source("== 1").unwrap_err().kind, ParseErrorKind::ExpectExpression);
    assert_eq!(parse_source("()").unwrap_err().kind, ParseErrorKind::ExpectExpression);
    assert_eq!(parse_source("x").unwrap_err().kind, ParseErrorKind::ExpectExpression);
}

#[test]
fn tokens_behind_the_expression_are_left_unread() {
    let mut parser = Parser::new(tokens_of("1 2"));
    let first = parser.parse().unwrap();
    assert_eq!(AstPrinter {}.print(first), "1");
    let second = parser.parse().unwrap();
    assert_eq!(AstPrinter {}.print(second), "2");
    assert_eq!(parser.parse().unwrap_err().kind, ParseErrorKind::ExpectExpression);
}

#[test]
fn synchronize_resumes_behind_a_semicolon() {
    let mut parser = Parser::new(tokens_of("(1 + ; 2 + 3"));
    assert_eq!(parser.parse().unwrap_err().kind, ParseErrorKind::ExpectExpression);
    parser.synchronize();
    let expr = parser.parse().unwrap();
    assert_eq!(AstPrinter {}.print(expr), "(+ 2 3)");
}

#[test]
fn synchronize_resumes_before_a_statement_keyword() {
    let mut parser = Parser::new(tokens_of("* 1 2\nprint\n3"));
    assert_eq!(
        parser.parse().unwrap_err(),
        ParseError { kind: ParseErrorKind::ExpectExpression, line: 1 }
    );
    parser.synchronize();
    assert_eq!(
        parser.parse().unwrap_err(),
        ParseError { kind: ParseErrorKind::ExpectExpression, line: 2 }
    );
    parser.synchronize();
    assert_eq!(
        parser.parse().unwrap_err(),
        ParseError { kind: ParseErrorKind::ExpectExpression, line: 3 }
    );
}

#[test]
fn synchronize_stops_at_the_end_of_the_input() {
    let mut parser = Parser::new(tokens_of("+ 1 2"));
    assert_eq!(parser.parse().unwrap_err().kind, ParseErrorKind::ExpectExpression);
    parser.synchronize();
    parser.synchronize();
    assert_eq!(parser.parse().unwrap_err().kind, ParseErrorKind::ExpectExpression);
}

#[test]
fn printed_literal_reads_back_as_itself() {
    for source in ["true", "false", "nil", "0", "12", "3.25", "100.001"] {
        let once = printed(source);
        let twice = printed(&once);
        assert_eq!(once, source);
        assert_eq!(twice, once);
    }
}

#[test]
fn printed_operation_reads_back_as_a_group() {
    let once = printed("-1");
    assert_eq!(once, "(- 1)");
    assert_eq!(printed(&once), "(group (- 1))");
}

#[test]
fn scanned_tokens_are_accepted() {
    assert!(Parser::accepts(&tokens_of("1 + 2.5 * (x - \"s\") @ 3.")));
    assert!(Parser::accepts(&Vec::new()));
}

#[test]
fn number_token_without_a_numeral_is_not_accepted() {
    let tokens = vec![
        Token::new(TokenType::Number, String::from("1"), String::from("1"), 1),
        Token::new(TokenType::Number, String::from("1.x"), String::from("1"), 1),
    ];
    assert!(!Parser::accepts(&tokens));
    let tokens = vec![Token::new(TokenType::Identifier, String::from("1.x"), String::new(), 1)];
    assert!(Parser::accepts(&tokens));
}
