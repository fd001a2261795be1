use vstd::prelude::*;

verus! {

/// Why a quote or swap computation could not produce a result.
///
/// Every failure is fatal for the whole computation: no function of this
/// library substitutes a default value or returns a partial answer.
#[derive(Clone, Copy, Debug, PartialEq, Eq)]
pub enum QuoteError {
    /// A supplied amount parameter was zero or negative.
    InsufficientAmount,
    /// A reserve was zero or negative, or a requested output would meet or
    /// exceed the available reserve.
    InsufficientLiquidity,
    /// A trading path had fewer than two assets, so it contains no hop.
    InvalidPath,
    /// An intermediate multiply, add, subtract or divide would overflow
    /// or divide by zero.
    ArithmeticFault,
}

} // verus!
