//! A reverse-mode automatic-differentiation core for fixed-shape integer
//! tensors.
//!
//! A caller builds arithmetic expressions over tensors whose element type is
//! `i64`; each binary operation computes its forward result eagerly and
//! appends one backward record to a gradient tape owned by exactly one
//! operand.  A terminal backward pass walks the tape in reverse registration
//! order and accumulates the gradient of the scalar output with respect to
//! every tensor that participated, keyed by each tensor's identity token.
//!
//! All arithmetic is checked: an operation whose exact mathematical result
//! would leave the `i64` range reports failure instead of wrapping, and each
//! contract states precisely when that happens.

pub mod nums;
pub mod kernels;
pub mod store;
pub mod tape;
pub mod tensor;
pub mod ops;
pub mod laws;
