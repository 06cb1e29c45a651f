//! What scanning means: the tokens and the errors that a source text stands for,
//! stated over sequences of characters.

use crate::token::{TokenModel, TokenType};
use vstd::prelude::*;

verus! {

/// The decimal digits `0` to `9`.
pub open spec fn is_digit(c: char) -> bool {
    '0' <= c && c <= '9'
}

/// The characters that may start an identifier: the letters `a` to `z` and `A`
/// to `Z`, and the underscore.
pub open spec fn is_alpha(c: char) -> bool {
    ('a' <= c && c <= 'z') || ('A' <= c && c <= 'Z') || c == '_'
}

/// The characters that may continue an identifier.
pub open spec fn is_alphanumeric(c: char) -> bool {
    is_alpha(c) || is_digit(c)
}

/// A stretch of the source that the scanner reads in one go.
pub enum Run {
    /// Decimal digits.
    Digits,
    /// The characters of an identifier.
    Word,
    /// A comment: everything up to the end of the line.
    Comment,
    /// The body of a string literal: everything up to the closing quote.
    Body,
}

impl Run {
    /// Whether `c` belongs to a run of this kind.
    pub open spec fn holds(self, c: char) -> bool {
        match self {
            Run::Digits => is_digit(c),
            Run::Word => is_alphanumeric(c),
            Run::Comment => c != '\n',
            Run::Body => c != '"',
        }
    }
}

/// Where the run that starts at `from` ends: the first index at or after `from`
/// whose character does not belong to the run, or the end of the source.
pub open spec fn run_end(src: Seq<char>, from: int, run: Run) -> int
    decreases src.len() - from,
{
    if 0 <= from < src.len() && run.holds(src[from]) {
        run_end(src, from + 1, run)
    } else {
        from
    }
}

/// The number of newline characters in `src[from..to]`.
pub open spec fn newlines(src: Seq<char>, from: int, to: int) -> nat
    decreases to - from,
{
    if from >= to {
        0
    } else {
        newlines(src, from, to - 1) + if src[to - 1] == '\n' {
            1nat
        } else {
            0nat
        }
    }
}

/// Whether the character after the one at `pos` is `c`.
pub open spec fn followed_by(src: Seq<char>, pos: int, c: char) -> bool {
    pos + 1 < src.len() && src[pos + 1] == c
}

/// The kind of the token that a punctuation character makes by itself.
pub open spec fn punctuation(c: char) -> Option<TokenType> {
    if c == '(' {
        Some(TokenType::LeftParen)
    } else if c == ')' {
        Some(TokenType::RightParen)
    } else if c == '{' {
        Some(TokenType::LeftBrace)
    } else if c == '}' {
        Some(TokenType::RightBrace)
    } else if c == ',' {
        Some(TokenType::Comma)
    } else if c == '.' {
        Some(TokenType::Dot)
    } else if c == '-' {
        Some(TokenType::Minus)
    } else if c == '+' {
        Some(TokenType::Plus)
    } else if c == ';' {
        Some(TokenType::Semicolon)
    } else if c == '/' {
        Some(TokenType::Slash)
    } else if c == '*' {
        Some(TokenType::Star)
    } else {
        None
    }
}

/// For a character that makes one operator alone and another when `=` follows
/// it: the kinds of the two, the short one first.
pub open spec fn operator(c: char) -> Option<(TokenType, TokenType)> {
    if c == '!' {
        Some((TokenType::Bang, TokenType::BangEqual))
    } else if c == '=' {
        Some((TokenType::Equal, TokenType::EqualEqual))
    } else if c == '<' {
        Some((TokenType::Less, TokenType::LessEqual))
    } else if c == '>' {
        Some((TokenType::Greater, TokenType::GreaterEqual))
    } else {
        None
    }
}

/// How a token of kind `kind` is written, for the kinds that are written in
/// one way only: punctuation and operators.
pub open spec fn spelling(kind: TokenType) -> Option<Seq<char>> {
    match kind {
        TokenType::LeftParen => Some(seq!['(']),
        TokenType::RightParen => Some(seq![')']),
        TokenType::LeftBrace => Some(seq!['{']),
        TokenType::RightBrace => Some(seq!['}']),
        TokenType::Comma => Some(seq![',']),
        TokenType::Dot => Some(seq!['.']),
        TokenType::Minus => Some(seq!['-']),
        TokenType::Plus => Some(seq!['+']),
        TokenType::Semicolon => Some(seq![';']),
        TokenType::Slash => Some(seq!['/']),
        TokenType::Star => Some(seq!['*']),
        TokenType::Bang => Some(seq!['!']),
        TokenType::BangEqual => Some(seq!['!', '=']),
        TokenType::Equal => Some(seq!['=']),
        TokenType::EqualEqual => Some(seq!['=', '=']),
        TokenType::Greater => Some(seq!['>']),
        TokenType::GreaterEqual => Some(seq!['>', '=']),
        TokenType::Less => Some(seq!['<']),
        TokenType::LessEqual => Some(seq!['<', '=']),
        _ => None,
    }
}

/// The reserved words, each with the kind of its token.
pub open spec fn keywords() -> Seq<(Seq<char>, TokenType)> {
    seq![
        ("and"@, TokenType::And),
        ("class"@, TokenType::Class),
        ("else"@, TokenType::Else),
        ("false"@, TokenType::False),
        ("for"@, TokenType::For),
        ("fun"@, TokenType::Fun),
        ("if"@, TokenType::If),
        ("nil"@, TokenType::Nul),
        ("or"@, TokenType::Or),
        ("print"@, TokenType::Print),
        ("return"@, TokenType::Return),
        ("super"@, TokenType::Super),
        ("this"@, TokenType::This),
        ("true"@, TokenType::True),
        ("var"@, TokenType::Var),
        ("while"@, TokenType::While),
    ]
}

/// The kind that the first entry of `table` at or after `from` gives to `word`.
pub open spec fn lookup(table: Seq<(Seq<char>, TokenType)>, word: Seq<char>, from: int) -> Option<
    TokenType,
>
    decreases table.len() - from,
{
    if from < 0 || from >= table.len() {
        None
    } else if table[from].0 == word {
        Some(table[from].1)
    } else {
        lookup(table, word, from + 1)
    }
}

/// The kind of the keyword `word`, if it is one.
pub open spec fn keyword(word: Seq<char>) -> Option<TokenType> {
    lookup(keywords(), word, 0)
}

/// Why a stretch of the source is no token.
#[derive(Clone, Copy, Debug, PartialEq, Eq, Structural)]
pub enum LexErrorKind {
    /// A character that starts no token.
    UnexpectedCharacter(char),
    /// A string literal without its closing quote.
    UnterminatedString,
}

/// A lexical error, as a mathematical value.
pub struct LexErrorModel {
    pub kind: LexErrorKind,
    pub line: nat,
}

/// What the scanner makes of one stretch of the source.
pub enum Outcome {
    /// A token.
    Token(TokenModel),
    /// An error: the stretch is skipped.
    Error(LexErrorModel),
    /// Nothing: white space or a comment.
    Nothing,
}

/// One step of the scanner.
pub struct Step {
    pub outcome: Outcome,
    /// Where the next step starts.
    pub end: int,
    /// The line on which the next step starts.
    pub line: nat,
}

/// The step that makes a token of `src[start..end]` without leaving the line.
pub open spec fn emit(
    kind: TokenType,
    src: Seq<char>,
    start: int,
    end: int,
    literal: Seq<char>,
    line: nat,
) -> Step {
    Step {
        outcome: Outcome::Token(
            TokenModel { kind, lexeme: src.subrange(start, end), literal, line },
        ),
        end,
        line,
    }
}

/// Where the number that starts at `pos` ends: after its digits, and after a
/// fraction if a dot and at least one digit follow them.
pub open spec fn number_end(src: Seq<char>, pos: int) -> int {
    let whole = run_end(src, pos, Run::Digits);
    if 0 <= whole && whole + 1 < src.len() && src[whole] == '.' && is_digit(src[whole + 1]) {
        run_end(src, whole + 1, Run::Digits)
    } else {
        whole
    }
}

/// The step that the scanner takes at `pos`, on line `line`.
pub open spec fn step(src: Seq<char>, pos: int, line: nat) -> Step
    recommends
        0 <= pos < src.len(),
{
    let c = src[pos];
    if c == '/' && followed_by(src, pos, '/') {
        Step { outcome: Outcome::Nothing, end: run_end(src, pos + 2, Run::Comment), line }
    } else if punctuation(c) is Some {
        emit(punctuation(c).unwrap(), src, pos, pos + 1, Seq::empty(), line)
    } else if operator(c) is Some {
        if followed_by(src, pos, '=') {
            emit(operator(c).unwrap().1, src, pos, pos + 2, Seq::empty(), line)
        } else {
            emit(operator(c).unwrap().0, src, pos, pos + 1, Seq::empty(), line)
        }
    } else if c == ' ' || c == '\r' {
        Step { outcome: Outcome::Nothing, end: pos + 1, line }
    } else if c == '\n' {
        Step { outcome: Outcome::Nothing, end: pos + 1, line: line + 1 }
    } else if c == '"' {
        let close = run_end(src, pos + 1, Run::Body);
        let last = line + newlines(src, pos + 1, close);
        if close < src.len() {
            Step {
                outcome: Outcome::Token(
                    TokenModel {
                        kind: TokenType::String,
                        lexeme: src.subrange(pos, close + 1),
                        literal: src.subrange(pos + 1, close),
                        line,
                    },
                ),
                end: close + 1,
                line: last,
            }
        } else {
            Step {
                outcome: Outcome::Error(
                    LexErrorModel { kind: LexErrorKind::UnterminatedString, line: last },
                ),
                end: close,
                line: last,
            }
        }
    } else if is_digit(c) {
        let end = number_end(src, pos);
        emit(TokenType::Number, src, pos, end, src.subrange(pos, end), line)
    } else if is_alpha(c) {
        let end = run_end(src, pos, Run::Word);
        let word = src.subrange(pos, end);
        match keyword(word) {
            Some(kind) => emit(kind, src, pos, end, Seq::empty(), line),
            None => emit(TokenType::Identifier, src, pos, end, word, line),
        }
    } else {
        Step {
            outcome: Outcome::Error(
                LexErrorModel { kind: LexErrorKind::UnexpectedCharacter(c), line },
            ),
            end: pos + 1,
            line,
        }
    }
}

/// The token that ends every scan.
pub open spec fn end_of_input(line: nat) -> TokenModel {
    TokenModel { kind: TokenType::Eof, lexeme: Seq::empty(), literal: Seq::empty(), line }
}

/// The result of a scan: the tokens, and the errors met on the way.
pub struct Scanned {
    pub tokens: Seq<TokenModel>,
    pub errors: Seq<LexErrorModel>,
}

impl Scanned {
    /// A scan that has found nothing yet.
    pub open spec fn empty() -> Scanned {
        Scanned { tokens: Seq::empty(), errors: Seq::empty() }
    }

    /// This result with the outcome of one more step behind it.
    pub open spec fn with(self, outcome: Outcome) -> Scanned {
        match outcome {
            Outcome::Token(token) => Scanned { tokens: self.tokens.push(token), ..self },
            Outcome::Error(error) => Scanned { errors: self.errors.push(error), ..self },
            Outcome::Nothing => self,
        }
    }

    /// This result with `rest` behind it.
    pub open spec fn join(self, rest: Scanned) -> Scanned {
        Scanned { tokens: self.tokens + rest.tokens, errors: self.errors + rest.errors }
    }

    /// This result after the outcome of one more step in front of it.
    pub open spec fn after(self, outcome: Outcome) -> Scanned {
        match outcome {
            Outcome::Token(token) => Scanned { tokens: seq![token] + self.tokens, ..self },
            Outcome::Error(error) => Scanned { errors: seq![error] + self.errors, ..self },
            Outcome::Nothing => self,
        }
    }
}

/// The tokens and errors of `src[pos..]`, where `pos` is on line `line`.
pub open spec fn scan_from(src: Seq<char>, pos: int, line: nat) -> Scanned
    decreases src.len() - pos,
    via scan_from_decreases
{
    if 0 <= pos < src.len() {
        let step = step(src, pos, line);
        scan_from(src, step.end, step.line).after(step.outcome)
    } else {
        Scanned { tokens: seq![end_of_input(line)], errors: Seq::empty() }
    }
}

#[via_fn]
proof fn scan_from_decreases(src: Seq<char>, pos: int, line: nat) {
    if 0 <= pos < src.len() {
        lemma_step_advances(src, pos, line);
    }
}

/// The tokens and errors of a whole source text, which starts on line 1.
pub open spec fn scan(src: Seq<char>) -> Scanned {
    scan_from(src, 0, 1)
}

/// What was found so far, then one step and the rest, is what was found with
/// that step, then the rest.
pub proof fn lemma_join_after(found: Scanned, outcome: Outcome, rest: Scanned)
    ensures
        found.join(rest.after(outcome)) == found.with(outcome).join(rest),
{
    assert(found.join(rest.after(outcome)).tokens =~= found.with(outcome).join(rest).tokens);
    assert(found.join(rest.after(outcome)).errors =~= found.with(outcome).join(rest).errors);
}

/// A run ends inside the source, holds only characters of its kind, and stops
/// at the first character that is not of its kind.
pub proof fn lemma_run_end(src: Seq<char>, from: int, run: Run)
    requires
        0 <= from <= src.len(),
    ensures
        from <= run_end(src, from, run) <= src.len(),
        forall|i: int| from <= i < run_end(src, from, run) ==> run.holds(#[trigger] src[i]),
        run_end(src, from, run) < src.len() ==> !run.holds(src[run_end(src, from, run)]),
    decreases src.len() - from,
{
    if from < src.len() && run.holds(src[from]) {
        lemma_run_end(src, from + 1, run);
    }
}

/// The run from `from` ends at `end` if it holds all of `src[from..end]` and
/// the source ends there or goes on with a character of another kind.
pub proof fn lemma_run_ends_at(src: Seq<char>, from: int, end: int, run: Run)
    requires
        0 <= from <= end <= src.len(),
        forall|i: int| from <= i < end ==> run.holds(#[trigger] src[i]),
        end < src.len() ==> !run.holds(src[end]),
    ensures
        run_end(src, from, run) == end,
    decreases end - from,
{
    if from < end {
        lemma_run_ends_at(src, from + 1, end, run);
    }
}

/// A stretch holds no more newlines than characters.
pub proof fn lemma_newlines_bound(src: Seq<char>, from: int, to: int)
    ensures
        newlines(src, from, to) <= if from <= to {
            to - from
        } else {
            0
        },
    decreases to - from,
{
    if from < to {
        lemma_newlines_bound(src, from, to - 1);
    }
}

/// Every step moves forward, stays inside the source, and passes no more lines
/// than characters.
pub proof fn lemma_step_advances(src: Seq<char>, pos: int, line: nat)
    requires
        0 <= pos < src.len(),
    ensures
        pos < step(src, pos, line).end <= src.len(),
        line <= step(src, pos, line).line <= line + (step(src, pos, line).end - pos),
{
    let c = src[pos];
    if c == '/' && followed_by(src, pos, '/') {
        lemma_run_end(src, pos + 2, Run::Comment);
    } else if c == '"' {
        lemma_run_end(src, pos + 1, Run::Body);
        lemma_newlines_bound(src, pos + 1, run_end(src, pos + 1, Run::Body));
    } else if is_digit(c) {
        lemma_run_end(src, pos, Run::Digits);
        let whole = run_end(src, pos, Run::Digits);
        if whole < src.len() {
            lemma_run_end(src, whole + 1, Run::Digits);
        }
    } else if is_alpha(c) {
        lemma_run_end(src, pos, Run::Word);
    }
}

} // verus!
