//! Precedence and associativity: how the grammar groups operands around
//! operators of the same and of different levels.

use crate::expr::ExprModel;
use crate::grammar::{
    at_end, binary, expression, operand, primary, tail, unary, Level, Parsed,
};
use crate::token::{TokenModel, TokenType};
use vstd::prelude::*;

verus! {

/// Whether a token of kind `kind` is a literal by itself.
pub open spec fn is_atom(kind: TokenType) -> bool {
    kind == TokenType::True || kind == TokenType::False || kind == TokenType::Nul || kind
        == TokenType::Number || kind == TokenType::String
}

/// Whether the token at `pos` is an operator of level `level`.
pub open spec fn operator_at(tokens: Seq<TokenModel>, pos: int, level: Level) -> bool {
    !at_end(tokens, pos) && level.holds(tokens[pos].kind)
}

/// Whether the token at `pos` is a prefix operator.
pub open spec fn prefix_at(tokens: Seq<TokenModel>, pos: int) -> bool {
    !at_end(tokens, pos) && (tokens[pos].kind == TokenType::Bang || tokens[pos].kind
        == TokenType::Minus)
}

/// Whether no binary operator comes at `pos`.
pub open spec fn ends_at(tokens: Seq<TokenModel>, pos: int) -> bool {
    forall|level: Level| !operator_at(tokens, pos, level)
}

/// Whether no operator that binds tighter than those of `level` comes at
/// `pos`.
pub open spec fn settles(tokens: Seq<TokenModel>, pos: int, level: Level) -> bool {
    forall|tighter: Level| tighter.depth() < level.depth() ==> !operator_at(tokens, pos, tighter)
}

/// The literal that the token at `pos` is.
pub open spec fn atom(tokens: Seq<TokenModel>, pos: int) -> ExprModel {
    primary(tokens, pos).value->Ok_0
}

/// The tree of two operands around the operator at `pos`.
pub open spec fn join(left: ExprModel, tokens: Seq<TokenModel>, pos: int, right: ExprModel)
    -> ExprModel {
    ExprModel::Binary { left: Box::new(left), operator: tokens[pos], right: Box::new(right) }
}

/// No operator belongs to two levels.
pub proof fn lemma_one_level(kind: TokenType, first: Level, second: Level)
    requires
        first.holds(kind),
        second.holds(kind),
    ensures
        first == second,
{
}

/// A literal is read from one token.
pub proof fn lemma_atom(tokens: Seq<TokenModel>, pos: int)
    requires
        !at_end(tokens, pos),
        is_atom(tokens[pos].kind),
    ensures
        primary(tokens, pos) == (Parsed { value: Ok(atom(tokens, pos)), consumed: 1 }),
        unary(tokens, pos) == primary(tokens, pos),
{
}

/// A literal is a whole operand where no tighter operator follows it.
pub proof fn lemma_atom_operand(tokens: Seq<TokenModel>, pos: int, level: Level)
    requires
        !at_end(tokens, pos),
        is_atom(tokens[pos].kind),
        settles(tokens, pos + 1, level),
    ensures
        operand(tokens, pos, level) == (Parsed { value: Ok(atom(tokens, pos)), consumed: 1 }),
    decreases level.depth(),
{
    lemma_atom(tokens, pos);
    match level {
        Level::Factor => {},
        Level::Term => {
            lemma_atom_operand(tokens, pos, Level::Factor);
            assert(!operator_at(tokens, pos + 1, Level::Factor));
            assert(binary(tokens, pos, Level::Factor) == operand(tokens, pos, Level::Factor));
        },
        Level::Comparison => {
            lemma_atom_operand(tokens, pos, Level::Term);
            assert(!operator_at(tokens, pos + 1, Level::Term));
            assert(binary(tokens, pos, Level::Term) == operand(tokens, pos, Level::Term));
        },
        Level::Equality => {
            lemma_atom_operand(tokens, pos, Level::Comparison);
            assert(!operator_at(tokens, pos + 1, Level::Comparison));
            assert(binary(tokens, pos, Level::Comparison) == operand(
                tokens,
                pos,
                Level::Comparison,
            ));
        },
    }
}

/// An expression of a tighter level is a whole operand of a looser level where
/// no operator of a level between the two follows it.
pub proof fn lemma_climb(tokens: Seq<TokenModel>, pos: int, from: Level, to: Level)
    requires
        from.depth() < to.depth(),
        binary(tokens, pos, from).value is Ok,
        settles(tokens, pos + binary(tokens, pos, from).consumed, to),
    ensures
        operand(tokens, pos, to) == binary(tokens, pos, from),
    decreases to.depth(),
{
    let below = match to {
        Level::Equality => Level::Comparison,
        Level::Comparison => Level::Term,
        _ => Level::Factor,
    };
    assert(operand(tokens, pos, to) == binary(tokens, pos, below));
    if below != from {
        lemma_climb(tokens, pos, from, below);
        let next = pos + binary(tokens, pos, from).consumed;
        assert(!operator_at(tokens, next, below));
        assert(binary(tokens, pos, below) == operand(tokens, pos, below));
    }
}

/// An expression that no operator follows is the whole expression.
pub proof fn lemma_whole(tokens: Seq<TokenModel>, pos: int, level: Level)
    requires
        binary(tokens, pos, level).value is Ok,
        ends_at(tokens, pos + binary(tokens, pos, level).consumed),
    ensures
        expression(tokens, pos) == binary(tokens, pos, level),
{
    if level != Level::Equality {
        let next = pos + binary(tokens, pos, level).consumed;
        assert(settles(tokens, next, Level::Equality));
        lemma_climb(tokens, pos, level, Level::Equality);
        assert(!operator_at(tokens, next, Level::Equality));
    }
}

/// Two literals around an operator make one tree, where no operator of the
/// same or of a tighter level follows.
pub proof fn lemma_pair(tokens: Seq<TokenModel>, pos: int, level: Level)
    requires
        !at_end(tokens, pos),
        is_atom(tokens[pos].kind),
        operator_at(tokens, pos + 1, level),
        !at_end(tokens, pos + 2),
        is_atom(tokens[pos + 2].kind),
        settles(tokens, pos + 3, level),
        !operator_at(tokens, pos + 3, level),
    ensures
        binary(tokens, pos, level) == (Parsed {
            value: Ok(join(atom(tokens, pos), tokens, pos + 1, atom(tokens, pos + 2))),
            consumed: 3,
        }),
{
    let at_operator = pos + 1;
    assert forall|tighter: Level| tighter.depth() < level.depth() implies !#[trigger] operator_at(
        tokens,
        at_operator,
        tighter,
    ) by {
        if operator_at(tokens, at_operator, tighter) {
            lemma_one_level(tokens[at_operator].kind, level, tighter);
        }
    }
    lemma_atom_operand(tokens, pos, level);
    lemma_atom_operand(tokens, pos + 2, level);
    let left = atom(tokens, pos);
    let pair = join(left, tokens, pos + 1, atom(tokens, pos + 2));
    assert(tail(tokens, pos + 3, level, pair) == (Parsed { value: Ok(pair), consumed: 0 }));
    assert(tail(tokens, pos + 1, level, left) == (Parsed { value: Ok(pair), consumed: 2 }));
}

/// Three literals with two operators between them: the operands of the first
/// operator are grouped first unless the second operator binds tighter. So
/// operators of one level group from the left, and an operator of a tighter
/// level takes its operands before one of a looser level does.
pub proof fn lemma_precedence(tokens: Seq<TokenModel>, pos: int, first: Level, second: Level)
    requires
        !at_end(tokens, pos),
        is_atom(tokens[pos].kind),
        operator_at(tokens, pos + 1, first),
        !at_end(tokens, pos + 2),
        is_atom(tokens[pos + 2].kind),
        operator_at(tokens, pos + 3, second),
        !at_end(tokens, pos + 4),
        is_atom(tokens[pos + 4].kind),
        ends_at(tokens, pos + 5),
    ensures
        expression(tokens, pos) == (Parsed {
            value: Ok(
                if second.depth() < first.depth() {
                    join(
                        atom(tokens, pos),
                        tokens,
                        pos + 1,
                        join(atom(tokens, pos + 2), tokens, pos + 3, atom(tokens, pos + 4)),
                    )
                } else {
                    join(
                        join(atom(tokens, pos), tokens, pos + 1, atom(tokens, pos + 2)),
                        tokens,
                        pos + 3,
                        atom(tokens, pos + 4),
                    )
                },
            ),
            consumed: 5,
        }),
{
    let a = atom(tokens, pos);
    let b = atom(tokens, pos + 2);
    let c = atom(tokens, pos + 4);
    let at_first = pos + 1;
    let at_second = pos + 3;
    assert forall|level: Level| level != first implies !#[trigger] operator_at(
        tokens,
        at_first,
        level,
    ) by {
        if operator_at(tokens, at_first, level) {
            lemma_one_level(tokens[at_first].kind, first, level);
        }
    }
    assert forall|level: Level| level != second implies !#[trigger] operator_at(
        tokens,
        at_second,
        level,
    ) by {
        if operator_at(tokens, at_second, level) {
            lemma_one_level(tokens[at_second].kind, second, level);
        }
    }
    let at_last = pos + 5;
    assert(!operator_at(tokens, at_last, first));
    assert(!operator_at(tokens, at_last, second));
    assert(settles(tokens, at_last, first));
    assert(settles(tokens, at_last, second));
    if second.depth() < first.depth() {
        // The second operator binds tighter: its tree is the right operand of
        // the first.
        let right = join(b, tokens, pos + 3, c);
        let whole = join(a, tokens, pos + 1, right);
        lemma_atom_operand(tokens, pos, first);
        lemma_pair(tokens, pos + 2, second);
        lemma_climb(tokens, pos + 2, second, first);
        assert(tail(tokens, pos + 5, first, whole) == (Parsed { value: Ok(whole), consumed: 0 }));
        assert(tail(tokens, pos + 1, first, a) == (Parsed { value: Ok(whole), consumed: 4 }));
        assert(binary(tokens, pos, first) == (Parsed { value: Ok(whole), consumed: 5 }));
        lemma_whole(tokens, pos, first);
    } else {
        // The first operator binds as tight as the second or tighter: its tree
        // is the left operand of the second.
        let left = join(a, tokens, pos + 1, b);
        let whole = join(left, tokens, pos + 3, c);
        lemma_atom_operand(tokens, pos + 4, second);
        assert(tail(tokens, pos + 5, second, whole) == (Parsed { value: Ok(whole), consumed: 0 }));
        assert(tail(tokens, pos + 3, second, left) == (Parsed { value: Ok(whole), consumed: 2 }));
        if first == second {
            lemma_atom_operand(tokens, pos, first);
            lemma_atom_operand(tokens, pos + 2, first);
            assert(tail(tokens, pos + 1, first, a) == (Parsed { value: Ok(whole), consumed: 4 }));
        } else {
            lemma_pair(tokens, pos, first);
            lemma_climb(tokens, pos, first, second);
        }
        assert(binary(tokens, pos, second) == (Parsed { value: Ok(whole), consumed: 5 }));
        lemma_whole(tokens, pos, second);
    }
}

/// Prefix operators group from the right: each takes all that follows it as
/// its operand.
pub proof fn lemma_prefix(tokens: Seq<TokenModel>, pos: int)
    requires
        prefix_at(tokens, pos),
        unary(tokens, pos + 1).value is Ok,
    ensures
        unary(tokens, pos) == (Parsed {
            value: Ok(
                ExprModel::Unary {
                    operator: tokens[pos],
                    right: Box::new(unary(tokens, pos + 1).value->Ok_0),
                },
            ),
            consumed: unary(tokens, pos + 1).consumed + 1,
        }),
{
}

/// Two prefix operators before a literal: the second with the literal is the
/// operand of the first.
pub proof fn lemma_two_prefixes(tokens: Seq<TokenModel>, pos: int)
    requires
        prefix_at(tokens, pos),
        prefix_at(tokens, pos + 1),
        !at_end(tokens, pos + 2),
        is_atom(tokens[pos + 2].kind),
        ends_at(tokens, pos + 3),
    ensures
        expression(tokens, pos) == (Parsed {
            value: Ok(
                ExprModel::Unary {
                    operator: tokens[pos],
                    right: Box::new(
                        ExprModel::Unary {
                            operator: tokens[pos + 1],
                            right: Box::new(atom(tokens, pos + 2)),
                        },
                    ),
                },
            ),
            consumed: 3,
        }),
{
    lemma_atom(tokens, pos + 2);
    lemma_prefix(tokens, pos + 1);
    lemma_prefix(tokens, pos);
    assert(operand(tokens, pos, Level::Factor) == unary(tokens, pos));
    assert(!operator_at(tokens, pos + 3, Level::Factor));
    assert(binary(tokens, pos, Level::Factor) == unary(tokens, pos));
    lemma_whole(tokens, pos, Level::Factor);
}

} // verus!
