use rlox::ast_printer::AstPrinter;
use rlox::expr::{Expr, LiteralType};
use rlox::number::Decimal;
use rlox::token::{Token, TokenType};
use rlox::visitor::Visitor;

fn number(text: &str) -> Box<Expr> {
    Box::new(Expr::Literal(LiteralType::Number(Decimal::parse(text).unwrap())))
}

#[test]
fn it_pretty_prints() {
    let expr = Box::new(Expr::Binary {
        left: Box::new(Expr::Unary {
            operator: Token::new(TokenType::Minus, String::from("-"), String::from("-"), 1),
            right: number("123"),
        }),
        operator: Token::new(TokenType::Star, String::from("*"), String::from("*"), 1),
        right: Box::new(Expr::Grouping(number("45.67"))),
    });

    let ast_printer = AstPrinter {};
    let output = ast_printer.print(expr);

    assert_eq!(output, String::from("(* (- 123) (group 45.67))"));
}

#[test]
fn operator_is_printed_from_its_lexeme() {
    let expr = Box::new(Expr::Unary {
        operator: Token::new(TokenType::Bang, String::from("!"), String::from("not"), 1),
        right: Box::new(Expr::Literal(LiteralType::False)),
    });
    assert_eq!(AstPrinter {}.print(expr), "(! false)");
}

#[test]
fn literals_print_as_themselves() {
    let printer = AstPrinter {};
    assert_eq!(printer.print(Box::new(Expr::Literal(LiteralType::True))), "true");
    assert_eq!(printer.print(Box::new(Expr::Literal(LiteralType::False))), "false");
    assert_eq!(printer.print(Box::new(Expr::Literal(LiteralType::Nil))), "nil");
    assert_eq!(
        printer.print(Box::new(Expr::Literal(LiteralType::String(String::from("a b"))))),
        "a b"
    );
    assert_eq!(printer.print(number("0.50")), "0.5");
}

#[test]
fn equal_trees_print_equally() {
    let build = || {
        Box::new(Expr::Binary {
            left: number("1"),
            operator: Token::new(TokenType::Plus, String::from("+"), String::new(), 1),
            right: Box::new(Expr::Grouping(number("2"))),
        })
    };
    let printer = AstPrinter {};
    assert_eq!(printer.print(build()), printer.print(build()));
    assert_eq!(printer.print(build()), "(+ 1 (group 2))");
}

#[test]
fn visit_is_the_printer() {
    let printer = AstPrinter {};
    assert_eq!(printer.visit(Box::new(Expr::Grouping(number("7")))), "(group 7)");
}
