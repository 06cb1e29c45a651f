//! Diagnostics: the one line of text that reports an error.

use crate::grammar::ParseErrorKind;
use crate::lexical::LexErrorKind;
use crate::parser::ParseError;
use crate::scanner::LexError;
use vstd::prelude::*;
use vstd::string::StringExecFns;

verus! {

/// The character that writes the decimal digit of value `value`.
pub open spec fn digit_char(value: nat) -> char {
    if value == 0 {
        '0'
    } else if value == 1 {
        '1'
    } else if value == 2 {
        '2'
    } else if value == 3 {
        '3'
    } else if value == 4 {
        '4'
    } else if value == 5 {
        '5'
    } else if value == 6 {
        '6'
    } else if value == 7 {
        '7'
    } else if value == 8 {
        '8'
    } else {
        '9'
    }
}

/// The decimal numeral of `n`, without leading zeros.
pub open spec fn decimal(n: nat) -> Seq<char>
    decreases n,
{
    if n < 10 {
        seq![digit_char(n)]
    } else {
        decimal(n / 10).push(digit_char(n % 10))
    }
}

/// The line of text that reports `message` for line `line`:
/// `[line 3] Error: message`, or, with a location,
/// `[line 3] Error location: message`.
pub open spec fn diagnostic(line: nat, location: Seq<char>, message: Seq<char>) -> Seq<char> {
    "[line "@ + decimal(line) + "] Error"@ + if location.len() == 0 {
        Seq::empty()
    } else {
        seq![' '] + location
    } + ": "@ + message
}

/// What is said of a lexical error of kind `kind`.
pub open spec fn lex_message(kind: LexErrorKind) -> Seq<char> {
    match kind {
        LexErrorKind::UnexpectedCharacter(c) => "Unrecognized token: "@.push(c),
        LexErrorKind::UnterminatedString => "Unterminated string."@,
    }
}

/// What is said of a syntax error of kind `kind`.
pub open spec fn parse_message(kind: ParseErrorKind) -> Seq<char> {
    match kind {
        ParseErrorKind::ExpectExpression => "Expect expression."@,
        ParseErrorKind::ExpectRightParen => "Expect ')' after expression."@,
    }
}

fn digit_of(value: usize) -> (c: char)
    requires
        value < 10,
    ensures
        c == digit_char(value as nat),
{
    if value == 0 {
        '0'
    } else if value == 1 {
        '1'
    } else if value == 2 {
        '2'
    } else if value == 3 {
        '3'
    } else if value == 4 {
        '4'
    } else if value == 5 {
        '5'
    } else if value == 6 {
        '6'
    } else if value == 7 {
        '7'
    } else if value == 8 {
        '8'
    } else {
        '9'
    }
}

/// Appends the decimal numeral of `n` to `text`.
fn push_decimal(text: &mut String, n: usize)
    ensures
        final(text)@ == old(text)@ + decimal(n as nat),
    decreases n,
{
    if n >= 10 {
        push_decimal(text, n / 10);
    }
    text.push(digit_of(n % 10));
    proof {
        if n < 10 {
            assert(text@ =~= old(text)@ + decimal(n as nat));
        } else {
            assert(text@ =~= old(text)@ + decimal(n as nat / 10).push(digit_char(n as nat % 10)));
        }
    }
}

/// The line of text that reports `message` for line `line`, at `location` if
/// that is not empty.
pub fn report(line: usize, location: String, message: String) -> (text: String)
    ensures
        text@ == diagnostic(line as nat, location@, message@),
{
    let mut text = String::from_str("[line ");
    push_decimal(&mut text, line);
    text.append("] Error");
    if !location.as_str().is_empty() {
        text.push(' ');
        text.append(location.as_str());
    }
    text.append(": ");
    text.append(message.as_str());
    proof {
        assert(text@ =~= diagnostic(line as nat, location@, message@));
    }
    text
}

/// The line of text that reports `message` for line `line`.
pub fn handle(line: usize, message: String) -> (text: String)
    ensures
        text@ == diagnostic(line as nat, Seq::empty(), message@),
{
    report(line, String::new(), message)
}

impl LexError {
    /// What is said of this error.
    pub fn message(&self) -> (text: String)
        ensures
            text@ == lex_message(self.kind),
    {
        match self.kind {
            LexErrorKind::UnexpectedCharacter(c) => {
                let mut text = String::from_str("Unrecognized token: ");
                text.push(c);
                text
            },
            LexErrorKind::UnterminatedString => String::from_str("Unterminated string."),
        }
    }
}

impl ParseError {
    /// What is said of this error.
    pub fn message(&self) -> (text: String)
        ensures
            text@ == parse_message(self.kind),
    {
        match self.kind {
            ParseErrorKind::ExpectExpression => String::from_str("Expect expression."),
            ParseErrorKind::ExpectRightParen => String::from_str("Expect ')' after expression."),
        }
    }
}

} // verus!
