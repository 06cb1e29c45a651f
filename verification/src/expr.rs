//! Expression trees.

use crate::number::Decimal;
use crate::token::{Token, TokenModel};
use vstd::prelude::*;

verus! {

/// A literal value, as a mathematical value.
pub enum LiteralModel {
    /// A number, as its canonical numeral.
    Number(Seq<char>),
    /// A string, as its characters.
    String(Seq<char>),
    True,
    False,
    Nil,
}

/// An expression tree, as a mathematical value.
pub enum ExprModel {
    Binary { left: Box<ExprModel>, operator: TokenModel, right: Box<ExprModel> },
    Grouping(Box<ExprModel>),
    Literal(LiteralModel),
    Unary { operator: TokenModel, right: Box<ExprModel> },
}

/// A literal value.
#[derive(Debug)]
pub enum LiteralType {
    Number(Decimal),
    String(String),
    True,
    False,
    Nil,
}

/// An expression tree. Each node owns its operands.
#[derive(Debug)]
pub enum Expr {
    /// Two operands and the operator between them.
    Binary { left: Box<Expr>, operator: Token, right: Box<Expr> },
    /// An expression in parentheses.
    Grouping(Box<Expr>),
    Literal(LiteralType),
    /// An operator and the operand behind it.
    Unary { operator: Token, right: Box<Expr> },
}

impl View for LiteralType {
    type V = LiteralModel;

    open spec fn view(&self) -> LiteralModel {
        match self {
            LiteralType::Number(number) => LiteralModel::Number(number@),
            LiteralType::String(text) => LiteralModel::String(text@),
            LiteralType::True => LiteralModel::True,
            LiteralType::False => LiteralModel::False,
            LiteralType::Nil => LiteralModel::Nil,
        }
    }
}

impl Expr {
    /// The mathematical value of this tree.
    pub open spec fn model(&self) -> ExprModel
        decreases self,
    {
        match self {
            Expr::Binary { left, operator, right } => ExprModel::Binary {
                left: Box::new(left.model()),
                operator: operator@,
                right: Box::new(right.model()),
            },
            Expr::Grouping(inner) => ExprModel::Grouping(Box::new(inner.model())),
            Expr::Literal(literal) => ExprModel::Literal(literal@),
            Expr::Unary { operator, right } => ExprModel::Unary {
                operator: operator@,
                right: Box::new(right.model()),
            },
        }
    }
}

impl View for Expr {
    type V = ExprModel;

    open spec fn view(&self) -> ExprModel {
        self.model()
    }
}

} // verus!
