//! A calculator for right-grouped chains of binary operations: tokens are parsed into an
//! expression tree, and the tree is evaluated by a machine that decides each step and
//! leaves the arithmetic to its caller.
use vstd::prelude::*;

pub mod evaluation;
pub mod expression;
pub mod literal;
pub mod operator;

verus! {

} // verus!
