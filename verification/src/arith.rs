//! Arithmetic that reports overflow as an error.

use safe_arith::SafeArith;
use vstd::prelude::*;

verus! {

/// Why an arithmetic operation has no result.
#[derive(Clone, Copy, Debug, PartialEq, Eq, Structural)]
pub enum ArithError {
    Overflow,
    DivisionByZero,
}

/// `n` as a `usize`, where it fits.
pub open spec fn fitting(n: nat) -> Result<usize, ArithError> {
    if n <= usize::MAX {
        Ok(n as usize)
    } else {
        Err(ArithError::Overflow)
    }
}

/// The sum of two numbers, where it fits in a `usize`.
pub open spec fn checked_sum(a: nat, b: nat) -> Result<usize, ArithError> {
    fitting(a + b)
}

/// The product of two numbers, where it fits in a `usize`.
pub open spec fn checked_product(a: nat, b: nat) -> Result<usize, ArithError> {
    fitting(a * b)
}

/// Calls `safe_arith`'s `SafeArith::safe_add` on two `usize` values: their sum where it fits,
/// `ArithError::Overflow` where it does not.
#[verifier::external_body]
pub(crate) fn safe_add(a: usize, b: usize) -> (result: Result<usize, ArithError>)
    ensures
        result == checked_sum(a as nat, b as nat),
{
    a.safe_add(b).map_err(|e| match e {
        safe_arith::ArithError::Overflow => ArithError::Overflow,
        safe_arith::ArithError::DivisionByZero => ArithError::DivisionByZero,
    })
}

/// Calls `safe_arith`'s `SafeArith::safe_mul` on two `usize` values: their product where it fits,
/// `ArithError::Overflow` where it does not.
#[verifier::external_body]
pub(crate) fn safe_mul(a: usize, b: usize) -> (result: Result<usize, ArithError>)
    ensures
        result == checked_product(a as nat, b as nat),
{
    a.safe_mul(b).map_err(|e| match e {
        safe_arith::ArithError::Overflow => ArithError::Overflow,
        safe_arith::ArithError::DivisionByZero => ArithError::DivisionByZero,
    })
}

} // verus!
