//! An arithmetic drill for primary-school pupils: it generates addition and
//! subtraction exercises whose answers are positive integers, grades a session,
//! keeps the fastest time of each difficulty and number range, and a history.

pub mod equation;
pub mod exercise;
pub mod input;
pub mod menu;
pub mod random;
pub mod session;
pub mod session_log;
pub mod text;
pub mod user;
pub mod util;

pub use exercise::{Formula, FormulaList};
pub use user::{Profile, User};
