//! A two-operand exercise kept as its numbers: `num1 + num2` when `operator`
//! is 0, `num1 - num2` otherwise.

use crate::text::{digits, push_count, push_str};
use vstd::prelude::*;

verus! {

pub struct Formula {
    pub index: u32,
    pub operator: u32,
    pub num1: u32,
    pub num2: u32,
}

/// The answer of an exercise, as a mathematical integer.
pub open spec fn answer_value(f: Formula) -> int {
    if f.operator == 0 { f.num1 + f.num2 } else { f.num1 - f.num2 }
}

/// Computing the answer in `u32` neither overflows nor goes below zero.
pub open spec fn answerable(f: Formula) -> bool {
    0 <= answer_value(f) <= u32::MAX
}

/// The text of an exercise: `"({index}) {num1} + {num2} = ( ) "`, or with
/// `-` for a subtraction.
pub open spec fn formula_text(f: Formula) -> Seq<char> {
    "("@ + digits(f.index as nat) + ") "@ + digits(f.num1 as nat) + (if f.operator == 0 {
        " + "@
    } else {
        " - "@
    }) + digits(f.num2 as nat) + " = ( ) "@
}

/// The exercise after `validate`: a subtraction (`operator == 1`) whose
/// first number is the smaller has its numbers exchanged.
pub open spec fn validated(f: Formula) -> Formula {
    if f.operator == 1 && f.num1 < f.num2 {
        Formula { num1: f.num2, num2: f.num1, ..f }
    } else {
        f
    }
}

/// Validating twice changes nothing more than validating once.
pub proof fn lemma_validate_idempotent(f: Formula)
    ensures
        validated(validated(f)) == validated(f),
{
}

/// A validated subtraction never goes below zero, so its answer can be
/// computed; and its numbers are the ones it had.
pub proof fn lemma_validated_subtraction_answerable(f: Formula)
    requires
        f.operator == 1,
    ensures
        answerable(validated(f)),
        validated(f).num1 >= validated(f).num2,
        (validated(f).num1 == f.num1 && validated(f).num2 == f.num2) || (validated(f).num1 == f.num2
            && validated(f).num2 == f.num1),
{
}

impl Formula {
    /// Whether the answer can be computed in `u32`.
    pub fn is_answerable(&self) -> (r: bool)
        ensures
            r == answerable(*self),
    {
        if self.operator == 0 {
            self.num1 as u64 + self.num2 as u64 <= u32::MAX as u64
        } else {
            self.num1 >= self.num2
        }
    }

    /// The answer: the sum for an addition, the difference otherwise.
    pub fn get_answer(&self) -> (r: u32)
        requires
            answerable(*self),
        ensures
            r == answer_value(*self),
    {
        if self.operator == 0 {
            self.num1 + self.num2
        } else {
            self.num1 - self.num2
        }
    }

    /// The exercise's text, with a blank for the answer.
    pub fn get_formula(&self) -> (s: String)
        ensures
            s@ == formula_text(*self),
    {
        let mut s = String::from_str("(");
        push_count(&mut s, self.index as u64);
        push_str(&mut s, ") ");
        push_count(&mut s, self.num1 as u64);
        if self.operator == 0 {
            push_str(&mut s, " + ");
        } else {
            push_str(&mut s, " - ");
        }
        push_count(&mut s, self.num2 as u64);
        push_str(&mut s, " = ( ) ");
        assert(s@ =~= formula_text(*self));
        s
    }

    /// Puts the larger number first in a subtraction, exchanging the numbers
    /// in place without a temporary.
    pub fn validate(&mut self)
        ensures
            *final(self) == validated(*old(self)),
    {
        if self.operator == 1 && self.num1 < self.num2 {
            let a = self.num1;
            let b = self.num2;
            self.num1 = self.num1 ^ self.num2;
            self.num2 = self.num2 ^ self.num1;
            self.num1 = self.num1 ^ self.num2;
            assert(((a ^ b) ^ (b ^ (a ^ b))) == b && (b ^ (a ^ b)) == a) by (bit_vector);
        }
    }
}

} // verus!
