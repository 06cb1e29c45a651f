//! Operations over whole expression trees.

use crate::expr::Expr;
use vstd::prelude::*;

verus! {

/// An operation that takes an expression tree to a value of type `T`. A new
/// operation is a new implementation; the trees stay as they are.
pub trait Visitor<T> {
    fn visit(&self, expr: Box<Expr>) -> T;
}

} // verus!
