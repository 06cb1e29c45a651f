use rlox::errors::{handle, report};
use rlox::grammar::ParseErrorKind;
use rlox::lexical::LexErrorKind;
use rlox::parser::ParseError;
use rlox::scanner::{LexError, Scanner};
use rlox::text::{chars_of, string_of};

#[test]
fn handle_writes_the_line_and_the_message() {
    assert_eq!(
        handle(3, String::from("Unterminated string.")),
        "[line 3] Error: Unterminated string."
    );
    assert_eq!(handle(0, String::new()), "[line 0] Error: ");
    assert_eq!(handle(120, String::from("m")), "[line 120] Error: m");
    assert_eq!(
        handle(18446744073709551615, String::from("m")),
        "[line 18446744073709551615] Error: m"
    );
}

#[test]
fn report_writes_the_location_where_there_is_one() {
    assert_eq!(
        report(7, String::from("at end"), String::from("Expect expression.")),
        "[line 7] Error at end: Expect expression."
    );
    assert_eq!(report(7, String::new(), String::from("x")), "[line 7] Error: x");
}

#[test]
fn lexical_errors_have_their_messages() {
    let error = LexError { kind: LexErrorKind::UnexpectedCharacter('@'), line: 2 };
    assert_eq!(error.message(), "Unrecognized token: @");
    let error = LexError { kind: LexErrorKind::UnterminatedString, line: 2 };
    assert_eq!(error.message(), "Unterminated string.");
}

#[test]
fn syntax_errors_have_their_messages() {
    let error = ParseError { kind: ParseErrorKind::ExpectExpression, line: 1 };
    assert_eq!(error.message(), "Expect expression.");
    let error = ParseError { kind: ParseErrorKind::ExpectRightParen, line: 1 };
    assert_eq!(error.message(), "Expect ')' after expression.");
}

#[test]
fn scanner_errors_are_reported_line_by_line() {
    let mut scanner = Scanner::new("@\n\"abc");
    scanner.scan_tokens();
    let lines: Vec<String> =
        scanner.errors().iter().map(|e| handle(e.line, e.message())).collect();
    assert_eq!(
        lines,
        vec![
            String::from("[line 1] Error: Unrecognized token: @"),
            String::from("[line 2] Error: Unterminated string."),
        ]
    );
}

#[test]
fn characters_and_strings_convert_both_ways() {
    let chars = chars_of("héllo");
    assert_eq!(chars, vec!['h', 'é', 'l', 'l', 'o']);
    assert_eq!(string_of(&chars, 1, 4), "éll");
    assert_eq!(string_of(&chars, 2, 2), "");
}
