//! Traits for performing binary and unary operations.

use vstd::prelude::*;
use crate::ty::Type;
use crate::value::Value;

verus! {

/// Logic for computing the result of a binary operation.
pub trait BinaryOperator<T: Type, V: Value> {
    /// Performs the operation with operands `left` and `right`, with output type `ty`.
    ///
    /// # Failures
    /// Fails when the two values cannot be combined to form the output type `ty`.
    fn op(&self, ty: T, left: &V, right: &V) -> Result<V, String>;
}

/// Logic for computing the result of a unary operation.
pub trait UnaryOperator<T: Type, V: Value> {
    /// Performs the operation with the operand `operand`, with output type `ty`.
    ///
    /// # Failures
    /// Fails when the value cannot form the output type `ty`.
    fn op(&self, ty: T, operand: &V) -> Result<V, String>;
}

} // verus!
