//! Exact rational arithmetic, symbolic expression trees, a one-step
//! simplifier, an evaluator, a renderer and an operator-precedence parser.
use vstd::prelude::*;

pub mod bignum;
pub mod rational;
pub mod value;
pub mod expression;
pub mod parse;

verus! {

} // verus!
