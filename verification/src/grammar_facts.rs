//! Facts about parsing that hold of every sequence of tokens.

use crate::grammar::{
    at_end, binary, check, expression, failure, line_at, operand, primary, remaining, tail, unary,
    Level, ParseErrorKind, ParseErrorModel, Parsed,
};
use crate::expr::ExprModel;
use crate::token::{TokenModel, TokenType};
use vstd::prelude::*;

verus! {

/// Whether the tokens that `parsed` has read from `pos` on are tokens of the
/// sequence, none of which marks the end of the input.
pub open spec fn reads_tokens(tokens: Seq<TokenModel>, pos: int, parsed: Parsed) -> bool {
    &&& pos + parsed.consumed <= tokens.len()
    &&& forall|i: int|
        pos <= i < pos + parsed.consumed ==> (#[trigger] tokens[i]).kind != TokenType::Eof
}

/// Whether `parsed` has read a token if it has found an expression.
pub open spec fn reads_some(parsed: Parsed) -> bool {
    parsed.value is Ok ==> parsed.consumed >= 1
}

/// `primary` reads only tokens before the end of the input, and at least one
/// where it finds an expression.
pub proof fn lemma_primary_reads(tokens: Seq<TokenModel>, pos: int)
    requires
        0 <= pos <= tokens.len(),
    ensures
        reads_tokens(tokens, pos, primary(tokens, pos)),
        reads_some(primary(tokens, pos)),
    decreases remaining(tokens, pos), 0nat,
{
    if pos < tokens.len() && tokens[pos].kind == TokenType::LeftParen {
        lemma_binary_reads(tokens, pos + 1, Level::Equality);
    }
}

/// `unary` reads only tokens before the end of the input, and at least one
/// where it finds an expression.
pub proof fn lemma_unary_reads(tokens: Seq<TokenModel>, pos: int)
    requires
        0 <= pos <= tokens.len(),
    ensures
        reads_tokens(tokens, pos, unary(tokens, pos)),
        reads_some(unary(tokens, pos)),
    decreases remaining(tokens, pos), 1nat,
{
    if pos < tokens.len() && (tokens[pos].kind == TokenType::Bang || tokens[pos].kind
        == TokenType::Minus) {
        lemma_unary_reads(tokens, pos + 1);
    } else {
        lemma_primary_reads(tokens, pos);
    }
}

/// An operand reads only tokens before the end of the input, and at least one
/// where it finds an expression.
pub proof fn lemma_operand_reads(tokens: Seq<TokenModel>, pos: int, level: Level)
    requires
        0 <= pos <= tokens.len(),
    ensures
        reads_tokens(tokens, pos, operand(tokens, pos, level)),
        reads_some(operand(tokens, pos, level)),
    decreases remaining(tokens, pos), 3 * level.depth() + 2,
{
    match level {
        Level::Equality => lemma_binary_reads(tokens, pos, Level::Comparison),
        Level::Comparison => lemma_binary_reads(tokens, pos, Level::Term),
        Level::Term => lemma_binary_reads(tokens, pos, Level::Factor),
        Level::Factor => lemma_unary_reads(tokens, pos),
    }
}

/// The operators and operands behind an operand are tokens before the end of
/// the input.
pub proof fn lemma_tail_reads(tokens: Seq<TokenModel>, pos: int, level: Level, left: ExprModel)
    requires
        0 <= pos <= tokens.len(),
    ensures
        reads_tokens(tokens, pos, tail(tokens, pos, level, left)),
    decreases remaining(tokens, pos), 3 * level.depth() + 3,
{
    if pos < tokens.len() && tokens[pos].kind != TokenType::Eof && level.holds(tokens[pos].kind) {
        let right = operand(tokens, pos + 1, level);
        lemma_operand_reads(tokens, pos + 1, level);
        if let Ok(expr) = right.value {
            lemma_tail_reads(
                tokens,
                pos + 1 + right.consumed,
                level,
                ExprModel::Binary {
                    left: Box::new(left),
                    operator: tokens[pos],
                    right: Box::new(expr),
                },
            );
        }
    }
}

/// An expression of one level reads only tokens before the end of the input,
/// and at least one where it finds an expression.
pub proof fn lemma_binary_reads(tokens: Seq<TokenModel>, pos: int, level: Level)
    requires
        0 <= pos <= tokens.len(),
    ensures
        reads_tokens(tokens, pos, binary(tokens, pos, level)),
        reads_some(binary(tokens, pos, level)),
    decreases remaining(tokens, pos), 3 * level.depth() + 4,
{
    let left = operand(tokens, pos, level);
    lemma_operand_reads(tokens, pos, level);
    if let Ok(expr) = left.value {
        lemma_tail_reads(tokens, pos + left.consumed, level, expr);
    }
}

/// The parser never reads the token that marks the end of the input, nor
/// anything behind the last token; and where it finds an expression it has
/// read at least one token.
pub proof fn lemma_expression_reads(tokens: Seq<TokenModel>, pos: int)
    requires
        0 <= pos <= tokens.len(),
    ensures
        reads_tokens(tokens, pos, expression(tokens, pos)),
        reads_some(expression(tokens, pos)),
{
    lemma_binary_reads(tokens, pos, Level::Equality);
}

/// Whether `kind` is a binary operator of some level.
pub open spec fn is_binary_operator(kind: TokenType) -> bool {
    Level::Equality.holds(kind) || Level::Comparison.holds(kind) || Level::Term.holds(kind)
        || Level::Factor.holds(kind)
}

/// Whether `root` is `leaf`, or a tree of binary operations that has `leaf` as
/// its leftmost operand and binary operators among `tokens` as its operators
/// on the way there.
pub open spec fn grows_from(root: ExprModel, leaf: ExprModel, tokens: Seq<TokenModel>) -> bool
    decreases root,
{
    root == leaf || match root {
        ExprModel::Binary { left, operator, right } => {
            &&& tokens.contains(operator)
            &&& is_binary_operator(operator.kind)
            &&& grows_from(*left, leaf, tokens)
        },
        _ => false,
    }
}

/// A tree that grows from a tree that grows from a leaf grows from that leaf.
pub proof fn lemma_grows_on(
    root: ExprModel,
    middle: ExprModel,
    leaf: ExprModel,
    tokens: Seq<TokenModel>,
)
    requires
        grows_from(root, middle, tokens),
        grows_from(middle, leaf, tokens),
    ensures
        grows_from(root, leaf, tokens),
    decreases root,
{
    if root != middle {
        match root {
            ExprModel::Binary { left, operator, right } => {
                lemma_grows_on(*left, middle, leaf, tokens);
            },
            _ => {},
        }
    }
}

/// What `tail` makes grows from the operand that it started with.
pub proof fn lemma_tail_grows(tokens: Seq<TokenModel>, pos: int, level: Level, left: ExprModel)
    requires
        tail(tokens, pos, level, left).value is Ok,
    ensures
        grows_from(tail(tokens, pos, level, left).value->Ok_0, left, tokens),
    decreases remaining(tokens, pos),
{
    if pos >= 0 && pos < tokens.len() && tokens[pos].kind != TokenType::Eof && level.holds(
        tokens[pos].kind,
    ) {
        let right = operand(tokens, pos + 1, level);
        if let Ok(expr) = right.value {
            let joined = ExprModel::Binary {
                left: Box::new(left),
                operator: tokens[pos],
                right: Box::new(expr),
            };
            lemma_tail_grows(tokens, pos + 1 + right.consumed, level, joined);
            assert(tokens.contains(tokens[pos]));
            assert(is_binary_operator(tokens[pos].kind));
            assert(grows_from(left, left, tokens));
            assert(grows_from(joined, left, tokens));
            lemma_grows_on(
                tail(tokens, pos, level, left).value->Ok_0,
                joined,
                left,
                tokens,
            );
        }
    }
}

/// Every expression grows from what `unary` reads at its start: where an
/// expression is found, `unary` has found its leftmost operand.
pub proof fn lemma_binary_grows(tokens: Seq<TokenModel>, pos: int, level: Level)
    requires
        binary(tokens, pos, level).value is Ok,
    ensures
        unary(tokens, pos).value is Ok,
        grows_from(binary(tokens, pos, level).value->Ok_0, unary(tokens, pos).value->Ok_0, tokens),
    decreases level.depth(),
{
    let first = operand(tokens, pos, level);
    let found = binary(tokens, pos, level).value->Ok_0;
    lemma_tail_grows(tokens, pos + first.consumed, level, first.value->Ok_0);
    match level {
        Level::Equality => {
            lemma_binary_grows(tokens, pos, Level::Comparison);
        },
        Level::Comparison => {
            lemma_binary_grows(tokens, pos, Level::Term);
        },
        Level::Term => {
            lemma_binary_grows(tokens, pos, Level::Factor);
        },
        Level::Factor => {},
    }
    lemma_grows_on(found, first.value->Ok_0, unary(tokens, pos).value->Ok_0, tokens);
}

/// An error in the leftmost operand is the error of the whole expression: no
/// production goes on after it.
pub proof fn lemma_error_passes_up(tokens: Seq<TokenModel>, pos: int)
    requires
        unary(tokens, pos).value is Err,
    ensures
        expression(tokens, pos) == unary(tokens, pos),
{
    assert(operand(tokens, pos, Level::Factor) == unary(tokens, pos));
    assert(binary(tokens, pos, Level::Factor) == unary(tokens, pos));
    assert(operand(tokens, pos, Level::Term) == unary(tokens, pos));
    assert(binary(tokens, pos, Level::Term) == unary(tokens, pos));
    assert(operand(tokens, pos, Level::Comparison) == unary(tokens, pos));
    assert(binary(tokens, pos, Level::Comparison) == unary(tokens, pos));
    assert(operand(tokens, pos, Level::Equality) == unary(tokens, pos));
}

/// An opening parenthesis and an expression that no closing parenthesis
/// follows are a syntax error, reported for the token that stands in its
/// place.
pub proof fn lemma_missing_paren(tokens: Seq<TokenModel>, pos: int)
    requires
        check(tokens, pos, TokenType::LeftParen),
        expression(tokens, pos + 1).value is Ok,
        !check(tokens, pos + 1 + expression(tokens, pos + 1).consumed, TokenType::RightParen),
    ensures
        expression(tokens, pos) == (Parsed {
            value: Err(
                ParseErrorModel {
                    kind: ParseErrorKind::ExpectRightParen,
                    line: line_at(tokens, pos + 1 + expression(tokens, pos + 1).consumed),
                },
            ),
            consumed: expression(tokens, pos + 1).consumed + 1,
        }),
{
    assert(unary(tokens, pos) == primary(tokens, pos));
    lemma_error_passes_up(tokens, pos);
}

/// An operator that no operand follows is a syntax error, reported for the
/// token that stands in the operand's place.
pub proof fn lemma_missing_operand(tokens: Seq<TokenModel>, pos: int, level: Level, left: ExprModel)
    requires
        !at_end(tokens, pos),
        level.holds(tokens[pos].kind),
        at_end(tokens, pos + 1),
    ensures
        tail(tokens, pos, level, left) == (Parsed {
            value: Err(
                ParseErrorModel {
                    kind: ParseErrorKind::ExpectExpression,
                    line: line_at(tokens, pos + 1),
                },
            ),
            consumed: 1,
        }),
{
    let next = pos + 1;
    assert(unary(tokens, next) == primary(tokens, next));
    assert(primary(tokens, next) == failure(tokens, next, ParseErrorKind::ExpectExpression));
    lemma_error_passes_up(tokens, next);
    assert(operand(tokens, next, Level::Factor) == unary(tokens, next));
    assert(binary(tokens, next, Level::Factor) == unary(tokens, next));
    assert(operand(tokens, next, Level::Term) == unary(tokens, next));
    assert(binary(tokens, next, Level::Term) == unary(tokens, next));
    assert(operand(tokens, next, Level::Comparison) == unary(tokens, next));
    assert(binary(tokens, next, Level::Comparison) == unary(tokens, next));
    assert(operand(tokens, next, Level::Equality) == unary(tokens, next));
    assert(operand(tokens, next, level) == unary(tokens, next));
}

} // verus!
