//! Small helpers for reading and showing numbers.

use crate::input::{parse_u32, parsed_u32, trim, trimmed};
use vstd::prelude::*;

verus! {

/// What a line typed in answer to a prompt for a number in `low..=high`
/// amounts to.
#[derive(PartialEq, Eq, Structural, Clone, Copy, Debug)]
pub enum NumberCheck {
    /// Not a number: the prompt asks for a number again.
    NotANumber,
    /// A number outside the range: the prompt names the range again.
    OutOfRange,
    /// An accepted number.
    Valid(u32),
}

/// Minutes and the remaining seconds of a duration in seconds.
pub fn get_time(time: u32) -> (r: (u32, u32))
    ensures
        r.0 == time / 60,
        r.1 == time % 60,
        r.0 * 60 + r.1 == time,
        r.1 < 60,
{
    (time / 60, time % 60)
}

/// Checks one typed line: white space around it is dropped and the rest is
/// read as a `u32`, which must lie in `low..=high`.
pub fn check_number(line: &str, low: u32, high: u32) -> (r: NumberCheck)
    ensures
        r == match parsed_u32(trimmed(line@)) {
            None => NumberCheck::NotANumber,
            Some(v) => if v < low || v > high {
                NumberCheck::OutOfRange
            } else {
                NumberCheck::Valid(v)
            },
        },
{
    let t = trim(line);
    match parse_u32(t.as_str()) {
        None => NumberCheck::NotANumber,
        Some(v) => if v < low || v > high {
            NumberCheck::OutOfRange
        } else {
            NumberCheck::Valid(v)
        },
    }
}

} // verus!
