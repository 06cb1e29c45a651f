//! What parsing means: the expression that a sequence of tokens stands for,
//! stated over the mathematical values of tokens and trees.
//!
//! ```text
//! expression → equality
//! equality   → comparison ( ( "!=" | "==" ) comparison )*
//! comparison → term ( ( ">" | ">=" | "<" | "<=" ) term )*
//! term       → factor ( ( "-" | "+" ) factor )*
//! factor     → unary ( ( "/" | "*" ) unary )*
//! unary      → ( "!" | "-" ) unary | primary
//! primary    → NUMBER | STRING | "true" | "false" | "nil" | "(" expression ")"
//! ```

use crate::expr::{ExprModel, LiteralModel};
use crate::number::{canonical, is_numeral};
use crate::token::{TokenModel, TokenType};
use vstd::prelude::*;

verus! {

/// What the parser expected and did not find.
#[derive(Clone, Copy, Debug, PartialEq, Eq, Structural)]
pub enum ParseErrorKind {
    /// No expression starts at the token.
    ExpectExpression,
    /// The token that follows an expression in parentheses is no `)`.
    ExpectRightParen,
}

/// A syntax error, as a mathematical value.
pub struct ParseErrorModel {
    pub kind: ParseErrorKind,
    pub line: nat,
}

/// The result of a production: the tree or the error, and the number of tokens
/// read up to there.
pub struct Parsed {
    pub value: Result<ExprModel, ParseErrorModel>,
    pub consumed: nat,
}

impl Parsed {
    /// This result after `count` more tokens were read before it.
    pub open spec fn shift(self, count: nat) -> Parsed {
        Parsed { consumed: self.consumed + count, ..self }
    }
}

/// Whether the tokens are used up at `pos`: there is none, or it marks the end
/// of the input.
pub open spec fn at_end(tokens: Seq<TokenModel>, pos: int) -> bool {
    pos < 0 || pos >= tokens.len() || tokens[pos].kind == TokenType::Eof
}

/// Whether the token at `pos` is there to be read and of kind `kind`.
pub open spec fn check(tokens: Seq<TokenModel>, pos: int, kind: TokenType) -> bool {
    !at_end(tokens, pos) && tokens[pos].kind == kind
}

/// The line that an error at `pos` is reported on: that of the token at `pos`,
/// or of the last token where there is none at `pos`, or 1 where there is no
/// token at all.
pub open spec fn line_at(tokens: Seq<TokenModel>, pos: int) -> nat {
    if 0 <= pos < tokens.len() {
        tokens[pos].line
    } else if tokens.len() > 0 {
        tokens.last().line
    } else {
        1
    }
}

/// The number of places from `pos` to the end of the tokens. Every production
/// that reads a token makes it smaller for what follows.
pub open spec fn remaining(tokens: Seq<TokenModel>, pos: int) -> nat {
    if pos < tokens.len() {
        (tokens.len() - pos) as nat
    } else {
        0
    }
}

/// Whether every number token holds a numeral. The parser reads no others.
pub open spec fn well_formed(tokens: Seq<TokenModel>) -> bool {
    forall|i: int|
        0 <= i < tokens.len() && (#[trigger] tokens[i]).kind == TokenType::Number ==> is_numeral(
            tokens[i].lexeme,
        )
}

/// The levels of binary operators, from the loosest to the tightest.
pub enum Level {
    Equality,
    Comparison,
    Term,
    Factor,
}

impl Level {
    /// Whether `kind` is an operator of this level.
    pub open spec fn holds(self, kind: TokenType) -> bool {
        match self {
            Level::Equality => kind == TokenType::BangEqual || kind == TokenType::EqualEqual,
            Level::Comparison => kind == TokenType::Greater || kind == TokenType::GreaterEqual
                || kind == TokenType::Less || kind == TokenType::LessEqual,
            Level::Term => kind == TokenType::Minus || kind == TokenType::Plus,
            Level::Factor => kind == TokenType::Slash || kind == TokenType::Star,
        }
    }

    /// The number of levels that bind tighter than this one.
    pub open spec fn depth(self) -> nat {
        match self {
            Level::Equality => 3,
            Level::Comparison => 2,
            Level::Term => 1,
            Level::Factor => 0,
        }
    }
}

/// The failure of kind `kind` at `pos`, with nothing read.
pub open spec fn failure(tokens: Seq<TokenModel>, pos: int, kind: ParseErrorKind) -> Parsed {
    Parsed { value: Err(ParseErrorModel { kind, line: line_at(tokens, pos) }), consumed: 0 }
}

/// The literal `literal`, read from one token.
pub open spec fn literal(literal: LiteralModel) -> Parsed {
    Parsed { value: Ok(ExprModel::Literal(literal)), consumed: 1 }
}

/// `primary → NUMBER | STRING | "true" | "false" | "nil" | "(" expression ")"`
pub open spec fn primary(tokens: Seq<TokenModel>, pos: int) -> Parsed
    decreases remaining(tokens, pos), 0nat,
{
    if check(tokens, pos, TokenType::False) {
        literal(LiteralModel::False)
    } else if check(tokens, pos, TokenType::True) {
        literal(LiteralModel::True)
    } else if check(tokens, pos, TokenType::Nul) {
        literal(LiteralModel::Nil)
    } else if check(tokens, pos, TokenType::Number) {
        literal(LiteralModel::Number(canonical(tokens[pos].lexeme)))
    } else if check(tokens, pos, TokenType::String) {
        literal(LiteralModel::String(tokens[pos].literal))
    } else if check(tokens, pos, TokenType::LeftParen) {
        let inner = binary(tokens, pos + 1, Level::Equality);
        match inner.value {
            Ok(expr) => if check(tokens, pos + 1 + inner.consumed, TokenType::RightParen) {
                Parsed {
                    value: Ok(ExprModel::Grouping(Box::new(expr))),
                    consumed: inner.consumed + 2,
                }
            } else {
                failure(
                    tokens,
                    pos + 1 + inner.consumed,
                    ParseErrorKind::ExpectRightParen,
                ).shift(inner.consumed + 1)
            },
            Err(_) => inner.shift(1),
        }
    } else {
        failure(tokens, pos, ParseErrorKind::ExpectExpression)
    }
}

/// `unary → ( "!" | "-" ) unary | primary`
pub open spec fn unary(tokens: Seq<TokenModel>, pos: int) -> Parsed
    decreases remaining(tokens, pos), 1nat,
{
    if check(tokens, pos, TokenType::Bang) || check(tokens, pos, TokenType::Minus) {
        let right = unary(tokens, pos + 1);
        match right.value {
            Ok(expr) => Parsed {
                value: Ok(ExprModel::Unary { operator: tokens[pos], right: Box::new(expr) }),
                consumed: right.consumed + 1,
            },
            Err(_) => right.shift(1),
        }
    } else {
        primary(tokens, pos)
    }
}

/// An operand of an operator of level `level`: an expression of the next
/// tighter level.
pub open spec fn operand(tokens: Seq<TokenModel>, pos: int, level: Level) -> Parsed
    decreases remaining(tokens, pos), 3 * level.depth() + 2,
{
    match level {
        Level::Equality => binary(tokens, pos, Level::Comparison),
        Level::Comparison => binary(tokens, pos, Level::Term),
        Level::Term => binary(tokens, pos, Level::Factor),
        Level::Factor => unary(tokens, pos),
    }
}

/// What follows the operand `left` at `pos`: as long as an operator of level
/// `level` comes next, that operator and one more operand, folded to the left.
pub open spec fn tail(tokens: Seq<TokenModel>, pos: int, level: Level, left: ExprModel) -> Parsed
    decreases remaining(tokens, pos), 3 * level.depth() + 3,
{
    if !at_end(tokens, pos) && level.holds(tokens[pos].kind) {
        let right = operand(tokens, pos + 1, level);
        match right.value {
            Ok(expr) => tail(
                tokens,
                pos + 1 + right.consumed,
                level,
                ExprModel::Binary {
                    left: Box::new(left),
                    operator: tokens[pos],
                    right: Box::new(expr),
                },
            ).shift(right.consumed + 1),
            Err(_) => right.shift(1),
        }
    } else {
        Parsed { value: Ok(left), consumed: 0 }
    }
}

/// An expression of level `level`: operands of the next tighter level with
/// operators of this level between them, grouped from the left.
pub open spec fn binary(tokens: Seq<TokenModel>, pos: int, level: Level) -> Parsed
    decreases remaining(tokens, pos), 3 * level.depth() + 4,
{
    let left = operand(tokens, pos, level);
    match left.value {
        Ok(expr) => tail(tokens, pos + left.consumed, level, expr).shift(left.consumed),
        Err(_) => left,
    }
}

/// `expression → equality`
pub open spec fn expression(tokens: Seq<TokenModel>, pos: int) -> Parsed {
    binary(tokens, pos, Level::Equality)
}

/// Whether a statement may start with a token of kind `kind`.
pub open spec fn starts_statement(kind: TokenType) -> bool {
    kind == TokenType::Class || kind == TokenType::Fun || kind == TokenType::Var || kind
        == TokenType::For || kind == TokenType::If || kind == TokenType::While || kind
        == TokenType::Print || kind == TokenType::Return
}

/// Whether parsing may be taken up again at `pos` after an error: the tokens
/// are used up there, or the token before is a semicolon, or a statement may
/// start with the token at `pos`.
pub open spec fn boundary(tokens: Seq<TokenModel>, pos: int) -> bool {
    at_end(tokens, pos) || (pos > 0 && tokens[pos - 1].kind == TokenType::Semicolon)
        || starts_statement(tokens[pos].kind)
}

/// The first boundary at or behind `pos`.
pub open spec fn next_boundary(tokens: Seq<TokenModel>, pos: int) -> int
    decreases remaining(tokens, pos),
{
    if boundary(tokens, pos) {
        pos
    } else {
        next_boundary(tokens, pos + 1)
    }
}

/// Where parsing is taken up again after an error at `pos`: at the first
/// boundary behind the token at `pos`, which is given up.
pub open spec fn resume(tokens: Seq<TokenModel>, pos: int) -> int {
    if at_end(tokens, pos) {
        pos
    } else {
        next_boundary(tokens, pos + 1)
    }
}

/// The expression that `tokens` starts with, or the first syntax error.
pub open spec fn parse(tokens: Seq<TokenModel>) -> Result<ExprModel, ParseErrorModel> {
    expression(tokens, 0).value
}

} // verus!
