//! Argument reduction and branch selection for `sin(πx)` and `cos(πx)`.
//!
//! The floating-point evaluation of the polynomial kernels lives outside this
//! crate's verified core; what is verified here is every decision that the
//! evaluation takes: how the input is classified, which kernel is evaluated
//! on the reduced argument, and which signs are applied.

pub mod limits;
pub mod quadrant;
pub mod plan;
