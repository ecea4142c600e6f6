//! A small dense-matrix library: row-major storage, element access,
//! transpose, elementwise and algebraic binary operations, and in-place
//! scalar broadcasts, each with a verified contract.
//!
//! Entries are `i64` values. Division rounds toward zero, as `/` does on
//! integers, and a zero divisor is reported as a recoverable
//! `DivisionByZero` error rather than a fault; shape disagreements are
//! likewise reported as recoverable errors.

pub mod laws;
pub mod matrix;
