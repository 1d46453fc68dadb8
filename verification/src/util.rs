//! Two-operand exercises kept as numbers, and small helpers for reading and
//! showing numbers.

pub mod formula;
pub mod utils;
