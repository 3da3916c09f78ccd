use vstd::prelude::*;
use crate::ast_nodes::OpKind;

verus! {

/// What the runtime leaves to its host: floating-point numbers, held as
/// `F`. The library assumes nothing of what these methods return.
pub trait PyHost<F> {
    /// The float a literal's text stands for.
    fn float_of_literal(&mut self, text: &str) -> F;

    /// An integer as a float.
    fn float_of_int(&mut self, value: i64) -> F;

    /// `+`, `-`, `*` or `/` on two floats.
    fn float_arith(&mut self, op: OpKind, a: F, b: F) -> F;

    /// A comparison of two floats.
    fn float_compare(&mut self, op: OpKind, a: F, b: F) -> bool;

    /// The negation of a float.
    fn float_negate(&mut self, a: F) -> F;

    /// Whether a float is zero.
    fn float_is_zero(&mut self, a: F) -> bool;

    /// A float converted to an integer.
    fn float_to_int(&mut self, a: F) -> i64;

    /// The printed form of a float.
    fn float_text(&mut self, a: F) -> String;
}

} // verus!
