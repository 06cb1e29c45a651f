//! The printer: an expression tree as text, with every operation in
//! parentheses.

use crate::expr::{Expr, ExprModel, LiteralModel, LiteralType};
use crate::token::TokenModel;
use crate::visitor::Visitor;
use vstd::prelude::*;
use vstd::string::StringExecFns;

verus! {

/// The texts `parts`, each with a space before it.
pub open spec fn spaced(parts: Seq<Seq<char>>) -> Seq<char>
    decreases parts.len(),
{
    if parts.len() == 0 {
        Seq::empty()
    } else {
        spaced(parts.drop_last()) + seq![' '] + parts.last()
    }
}

/// `name` and `parts` in one pair of parentheses, with a space before each
/// part.
pub open spec fn parenthesize(name: Seq<char>, parts: Seq<Seq<char>>) -> Seq<char> {
    seq!['('] + name + spaced(parts) + seq![')']
}

/// The text of a literal: the numeral of a number, the characters of a string,
/// and the keyword of each of the others.
pub open spec fn render_literal(literal: LiteralModel) -> Seq<char> {
    match literal {
        LiteralModel::Number(numeral) => numeral,
        LiteralModel::String(text) => text,
        LiteralModel::True => "true"@,
        LiteralModel::False => "false"@,
        LiteralModel::Nil => "nil"@,
    }
}

/// The text of an expression tree.
pub open spec fn render(expr: ExprModel) -> Seq<char>
    decreases expr,
{
    match expr {
        ExprModel::Binary { left, operator, right } => parenthesize(
            operator.lexeme,
            seq![render(*left), render(*right)],
        ),
        ExprModel::Grouping(inner) => parenthesize("group"@, seq![render(*inner)]),
        ExprModel::Literal(literal) => render_literal(literal),
        ExprModel::Unary { operator, right } => parenthesize(operator.lexeme, seq![render(*right)]),
    }
}

/// The text of a binary operation, piece by piece.
pub proof fn lemma_render_binary(left: ExprModel, operator: TokenModel, right: ExprModel)
    ensures
        render(ExprModel::Binary { left: Box::new(left), operator, right: Box::new(right) })
            == seq!['('] + operator.lexeme + seq![' '] + render(left) + seq![' '] + render(right)
            + seq![')'],
{
    let parts = seq![render(left), render(right)];
    assert(parts.drop_last() =~= seq![render(left)]);
    assert(parts.drop_last().drop_last() =~= Seq::<Seq<char>>::empty());
    reveal_with_fuel(spaced, 3);
    assert(spaced(parts) =~= seq![' '] + render(left) + seq![' '] + render(right));
    assert(parenthesize(operator.lexeme, parts) =~= seq!['('] + operator.lexeme + seq![' ']
        + render(left) + seq![' '] + render(right) + seq![')']);
}

/// The text of an operation with one operand, piece by piece.
pub proof fn lemma_render_one(name: Seq<char>, operand: ExprModel)
    ensures
        parenthesize(name, seq![render(operand)]) == seq!['('] + name + seq![' '] + render(operand)
            + seq![')'],
{
    let parts = seq![render(operand)];
    assert(parts.drop_last() =~= Seq::<Seq<char>>::empty());
    reveal_with_fuel(spaced, 2);
    assert(spaced(parts) =~= seq![' '] + render(operand));
    assert(parenthesize(name, parts) =~= seq!['('] + name + seq![' '] + render(operand) + seq![
        ')',
    ]);
}

/// The number of nodes on the longest path from the root of `expr` to a leaf.
pub open spec fn height(expr: ExprModel) -> nat
    decreases expr,
{
    match expr {
        ExprModel::Binary { left, operator, right } => 1 + if height(*left) >= height(*right) {
            height(*left)
        } else {
            height(*right)
        },
        ExprModel::Grouping(inner) => 1 + height(*inner),
        ExprModel::Literal(literal) => 1,
        ExprModel::Unary { operator, right } => 1 + height(*right),
    }
}

/// The mathematical values of `exprs`.
pub open spec fn models(exprs: Seq<Box<Expr>>) -> Seq<ExprModel> {
    Seq::new(exprs.len(), |i: int| exprs[i]@)
}

/// The texts of `exprs`.
pub open spec fn renders(exprs: Seq<ExprModel>) -> Seq<Seq<char>> {
    Seq::new(exprs.len(), |i: int| render(exprs[i]))
}

/// The greatest height among `exprs`.
pub open spec fn tallest(exprs: Seq<ExprModel>) -> nat
    decreases exprs.len(),
{
    if exprs.len() == 0 {
        0
    } else if height(exprs.last()) >= tallest(exprs.drop_last()) {
        height(exprs.last())
    } else {
        tallest(exprs.drop_last())
    }
}

/// None of `exprs` is higher than the tallest.
pub proof fn lemma_tallest(exprs: Seq<ExprModel>, i: int)
    requires
        0 <= i < exprs.len(),
    ensures
        height(exprs[i]) <= tallest(exprs),
    decreases exprs.len(),
{
    if i < exprs.len() - 1 {
        lemma_tallest(exprs.drop_last(), i);
    }
}

/// The height and the text of one operand.
pub proof fn lemma_one_operand(operand: Box<Expr>)
    ensures
        models(seq![operand]) == seq![operand@],
        tallest(seq![operand@]) == height(operand@),
        renders(seq![operand@]) == seq![render(operand@)],
{
    let operands = seq![operand@];
    assert(models(seq![operand]) =~= operands);
    assert(operands.drop_last() =~= Seq::empty());
    assert(tallest(operands.drop_last()) == 0);
    assert(renders(operands) =~= seq![render(operand@)]);
}

/// The height and the texts of two operands.
pub proof fn lemma_two_operands(left: Box<Expr>, right: Box<Expr>)
    ensures
        models(seq![left, right]) == seq![left@, right@],
        tallest(seq![left@, right@]) == if height(left@) >= height(right@) {
            height(left@)
        } else {
            height(right@)
        },
        renders(seq![left@, right@]) == seq![render(left@), render(right@)],
{
    let operands = seq![left@, right@];
    assert(models(seq![left, right]) =~= operands);
    assert(operands.drop_last() =~= seq![left@]);
    lemma_one_operand(left);
    assert(renders(operands) =~= seq![render(left@), render(right@)]);
}

/// The printer of expression trees.
pub struct AstPrinter {}

impl AstPrinter {
    /// The text of `expr`.
    pub fn print(&self, expr: Box<Expr>) -> (text: String)
        ensures
            text@ == render(expr@),
    {
        self.visit(expr)
    }

    fn parenthesize(&self, name: String, exprs: Vec<Box<Expr>>) -> (text: String)
        ensures
            text@ == parenthesize(name@, renders(models(exprs@))),
        decreases tallest(models(exprs@)) + 1, 0nat,
    {
        let mut text = String::new();
        text.push('(');
        text.append(name.as_str());
        let ghost all = exprs@;
        let ghost parts = renders(models(all));
        proof {
            assert(text@ =~= seq!['('] + name@ + spaced(parts.take(0)));
        }
        for e in it: exprs
            invariant
                it.seq() == all,
                parts == renders(models(all)),
                text@ == seq!['('] + name@ + spaced(parts.take(it.index() as int)),
        {
            let ghost i = it.index() as int;
            proof {
                lemma_tallest(models(all), i);
                assert(parts.take(i + 1).drop_last() =~= parts.take(i));
            }
            text.push(' ');
            let part = self.visit(e);
            text.append(part.as_str());
            proof {
                assert(text@ =~= seq!['('] + name@ + spaced(parts.take(i + 1)));
            }
        }
        proof {
            assert(parts.take(all.len() as int) =~= parts);
        }
        text.push(')');
        proof {
            assert(text@ =~= parenthesize(name@, parts));
        }
        text
    }
}

impl Visitor<String> for AstPrinter {
    fn visit(&self, expr: Box<Expr>) -> (text: String)
        ensures
            text@ == render(expr@),
        decreases height(expr@), 1nat,
    {
        match *expr {
            Expr::Binary { left, operator, right } => {
                let operands = vec![left, right];
                proof {
                    lemma_two_operands(left, right);
                    assert(operands@ =~= seq![left, right]);
                }
                self.parenthesize(operator.text, operands)
            },
            Expr::Grouping(inner) => {
                let operands = vec![inner];
                proof {
                    lemma_one_operand(inner);
                    assert(operands@ =~= seq![inner]);
                }
                self.parenthesize(String::from_str("group"), operands)
            },
            Expr::Literal(literal) => match literal {
                LiteralType::Number(number) => String::from_str(number.as_str()),
                LiteralType::String(text) => text,
                LiteralType::True => String::from_str("true"),
                LiteralType::False => String::from_str("false"),
                LiteralType::Nil => String::from_str("nil"),
            },
            Expr::Unary { operator, right } => {
                let operands = vec![right];
                proof {
                    lemma_one_operand(right);
                    assert(operands@ =~= seq![right]);
                }
                self.parenthesize(operator.text, operands)
            },
        }
    }
}

} // verus!
