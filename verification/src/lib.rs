//! Two small puzzle solvers over line-oriented text: a height-trend counter
//! and a submarine dead-reckoning accumulator.
//!
//! Every solver takes the whole input as bytes. The input is cut into
//! non-blank lines, each line is parsed into a value, and the values are
//! folded into one integer.

pub mod common;
pub mod day01;
pub mod day02;
