use vstd::prelude::*;

verus! {

/// Failure modes of the arithmetic layer and of the solvers.
///
/// The first three report that a fixed-point primitive could not represent
/// its true mathematical result; they are hard failures and never silently
/// wrapped.  The remaining four are rejections of structurally invalid or
/// unusable solver inputs.
#[derive(Clone, Copy, Debug, PartialEq, Eq, Structural)]
pub enum OrbitalError {
    /// The true result exceeds the representable width, or an input exceeds
    /// the magnitude bound that keeps the solvers overflow-free.
    Overflow,
    /// A subtraction's true result would be negative.
    Underflow,
    /// A division's divisor is zero.
    DivisionByZero,
    /// A reserve vector does not hold exactly one entry per token.
    InvalidArrayLength,
    /// A token index is out of range, or the two indices coincide.
    InvalidTokenIndex,
    /// The traded pair has no reserves to quote against.
    InsufficientLiquidity,
    /// No safe quote exists: the iteration did not converge and the
    /// constant-product fallback is degenerate.
    ConvergenceError,
}

} // verus!
