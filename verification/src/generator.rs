//! Use ast to calculate or generate target code.
//!
//! Current implemented generator:
//! * `calculator`: calculate the expression to `i128`, will
//!   cause a cast in division

pub mod calculator;
