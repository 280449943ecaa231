//! The error of the value algebra.
use vstd::prelude::*;

verus! {

/// Why an operation on values or ranges could not be carried out.
#[derive(Debug, Clone, Copy, PartialEq, Eq, Structural)]
pub enum TypeError {
    /// An operator met operands it is not defined on, or a normalizer met a
    /// range of a shape it does not accept.
    InvalidType,
    /// A value has no form in the type it was cast to.
    CastFail,
    /// The result of an arithmetic operator lies outside its type.
    Overflow,
    /// The right operand of a division is zero.
    DivisionByZero,
    /// The operation is not supported.
    NotImplemented,
}

} // verus!
