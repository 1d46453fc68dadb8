//! Exercises: how a drawn shape and drawn operands become a formula with a
//! blank and its answer, and how a whole list of them is generated.
//!
//! There are ten shapes of exercise, numbered as the generator draws them:
//!
//! | shape | notation        | | shape | notation            |
//! |------|-----------------|-|------|---------------------|
//! | 0    | `a + b = ( )`   | | 5    | `a + ( ) = b`       |
//! | 1    | `a - b = ( )`   | | 6    | `a + b + c = ( )`   |
//! | 2    | `a - ( ) = b`   | | 7    | `a + b - c = ( )`   |
//! | 3    | `( ) - a = b`   | | 8    | `a - b + c = ( )`   |
//! | 4    | `( ) + a = b`   | | 9    | `a - b - c = ( )`   |
//!
//! Difficulty 1 draws shapes 0..=1, difficulty 2 shapes 2..=5, any other
//! difficulty shapes 6..=9.

use crate::random::{gen_range, sample_uniform, thread_rng};
use crate::text::{int_text, push_int, push_str};
use std::collections::VecDeque;
use vstd::prelude::*;

verus! {

/// One exercise: its text with a blank, numbered, and the number that fills
/// the blank.
pub struct Formula {
    pub notation: String,
    pub answer: i32,
}

/// The exercises of one session, with the difficulty, mode and number range
/// they were generated for.
pub struct FormulaList {
    pub list: VecDeque<Formula>,
    pub level: i32,
    pub mode: String,
    pub range: i32,
}

/// How many operands an exercise of the given shape has.
pub open spec fn operand_count(shape: int) -> int {
    if shape < 6 { 2 } else { 3 }
}

/// The shapes that the given difficulty draws from.
pub open spec fn shapes_of_level(level: int, shape: int) -> bool {
    if level == 1 {
        0 <= shape < 2
    } else if level == 2 {
        2 <= shape < 6
    } else {
        6 <= shape < 10
    }
}

/// The operands with the first two exchanged.
pub open spec fn swap_first(x: Seq<i32>) -> Seq<i32> {
    x.update(0, x[1]).update(1, x[0])
}

/// The operands with the last two exchanged.
pub open spec fn swap_last(x: Seq<i32>) -> Seq<i32> {
    x.update(1, x[2]).update(2, x[1])
}

/// The operands in the order the exercise shows them: subtractions put the
/// larger number first, `( ) + a = b` and `a + ( ) = b` the smaller, and the
/// mixed shapes reorder so that the running result does not go below zero.
pub open spec fn arranged(shape: int, x: Seq<i32>) -> Seq<i32> {
    if (shape == 1 || shape == 2) && x[0] < x[1] {
        swap_first(x)
    } else if (shape == 4 || shape == 5) && x[0] > x[1] {
        swap_first(x)
    } else if shape == 7 && x[0] + x[1] - x[2] < 0 {
        swap_last(x)
    } else if shape == 8 && x[0] - x[1] + x[2] < 0 {
        swap_first(x)
    } else {
        x
    }
}

pub open spec fn abs(v: int) -> int {
    if v < 0 { -v } else { v }
}

/// The number that fills the blank of an exercise of the given shape whose
/// operands, in shown order, are `y`.
pub open spec fn answer_of(shape: int, y: Seq<i32>) -> int {
    if shape == 0 || shape == 3 {
        y[0] + y[1]
    } else if shape == 6 {
        y[0] + y[1] + y[2]
    } else if shape == 7 {
        y[0] + y[1] - y[2]
    } else if shape == 8 {
        y[0] - y[1] + y[2]
    } else if shape == 9 {
        y[0] - y[1] - y[2]
    } else {
        abs(y[0] - y[1])
    }
}

/// The equation that the notation of an exercise states, with `v` written
/// into its blank.
pub open spec fn equation_holds(shape: int, y: Seq<i32>, v: int) -> bool {
    if shape == 0 {
        y[0] + y[1] == v
    } else if shape == 1 {
        y[0] - y[1] == v
    } else if shape == 2 {
        y[0] - v == y[1]
    } else if shape == 3 {
        v - y[0] == y[1]
    } else if shape == 4 {
        v + y[0] == y[1]
    } else if shape == 5 {
        y[0] + v == y[1]
    } else if shape == 6 {
        y[0] + y[1] + y[2] == v
    } else if shape == 7 {
        y[0] + y[1] - y[2] == v
    } else if shape == 8 {
        y[0] - y[1] + y[2] == v
    } else {
        y[0] - y[1] - y[2] == v
    }
}

/// The number at the start of an exercise's text: `"({idx}) "`.
pub open spec fn notation_head(idx: int) -> Seq<char> {
    "("@ + int_text(idx) + ") "@
}

/// The text of an exercise after its number, for the given shape and
/// operands `y` in shown order.
pub open spec fn notation_body(shape: int, y: Seq<i32>) -> Seq<char> {
    let a = int_text(y[0] as int);
    let b = int_text(y[1] as int);
    if shape == 0 {
        a + " + "@ + b + " = ( )"@
    } else if shape == 1 {
        a + " - "@ + b + " = ( )"@
    } else if shape == 2 {
        a + " - ( ) = "@ + b
    } else if shape == 3 {
        "( ) - "@ + a + " = "@ + b
    } else if shape == 4 {
        "( ) + "@ + a + " = "@ + b
    } else if shape == 5 {
        a + " + ( ) = "@ + b
    } else {
        let c = int_text(y[2] as int);
        if shape == 6 {
            a + " + "@ + b + " + "@ + c + " = ( )"@
        } else if shape == 7 {
            a + " + "@ + b + " - "@ + c + " = ( )"@
        } else if shape == 8 {
            a + " - "@ + b + " + "@ + c + " = ( )"@
        } else {
            a + " - "@ + b + " - "@ + c + " = ( )"@
        }
    }
}

/// The text of an exercise numbered `idx`, of the given shape, whose operands
/// in shown order are `y`.
pub open spec fn notation_of(idx: int, shape: int, y: Seq<i32>) -> Seq<char> {
    notation_head(idx) + notation_body(shape, y)
}

pub open spec fn fits_i32(v: int) -> bool {
    i32::MIN <= v <= i32::MAX
}

/// Every intermediate value that building an exercise of this shape from the
/// drawn operands `x` computes fits in an `i32`, and no absolute value is
/// taken of `i32::MIN`.
pub open spec fn computable(shape: int, x: Seq<i32>) -> bool {
    let y = arranged(shape, x);
    if shape == 0 || shape == 3 {
        fits_i32(x[0] + x[1])
    } else if shape == 1 || shape == 2 || shape == 4 || shape == 5 {
        fits_i32(y[0] - y[1]) && y[0] - y[1] != i32::MIN
    } else if shape == 6 {
        fits_i32(x[0] + x[1]) && fits_i32(x[0] + x[1] + x[2])
    } else if shape == 7 {
        &&& fits_i32(x[0] + x[1]) && fits_i32(x[0] + x[1] - x[2])
        &&& fits_i32(y[0] + y[1]) && fits_i32(y[0] + y[1] - y[2])
    } else if shape == 8 {
        &&& fits_i32(x[0] - x[1]) && fits_i32(x[0] - x[1] + x[2])
        &&& fits_i32(y[0] - y[1]) && fits_i32(y[0] - y[1] + y[2])
    } else {
        fits_i32(x[0] - x[1]) && fits_i32(x[0] - x[1] - x[2])
    }
}

/// What building an exercise gives: its notation and its answer.
pub open spec fn built(idx: int, shape: int, x: Seq<i32>) -> (Seq<char>, int) {
    let y = arranged(shape, x);
    (notation_of(idx, shape, y), answer_of(shape, y))
}

/// No drawn operands lead to an overflow at the given difficulty. Difficulty
/// 1 and 2 combine two numbers from `low..high`: their sum and difference
/// fit in an `i32`, and a difference is never `i32::MIN`. Other difficulties
/// combine three: the extreme values of `a + b + c`, `a + b - c`,
/// `a - b - c` and of the partial results fit in an `i32`.
pub open spec fn operands_fit(level: int, low: int, high: int) -> bool {
    let h = high - 1;
    if level == 1 || level == 2 {
        &&& fits_i32(2 * low) && fits_i32(2 * h)
        &&& fits_i32(low - h) && low - h != i32::MIN && fits_i32(h - low)
    } else {
        &&& fits_i32(3 * low) && fits_i32(3 * h)
        &&& fits_i32(2 * low) && fits_i32(2 * h)
        &&& fits_i32(low - h) && fits_i32(h - low)
        &&& fits_i32(2 * low - h) && fits_i32(2 * h - low)
        &&& fits_i32(low - 2 * h) && fits_i32(h - 2 * low)
    }
}

/// Every operand of `x` lies in `low..high`.
pub open spec fn within(x: Seq<i32>, low: int, high: int) -> bool {
    forall|i: int| 0 <= i < x.len() ==> low <= #[trigger] x[i] < high
}

/// Whether some operands from `low..high` give an exercise of this shape a
/// positive answer: a difference needs two distinct numbers, `a - b - c`
/// needs the largest number to exceed twice the smallest.
pub open spec fn positive_possible(shape: int, low: int, high: int) -> bool {
    let h = high - 1;
    if shape == 1 || shape == 2 || shape == 4 || shape == 5 {
        h > low
    } else if shape == 9 {
        h - 2 * low >= 1
    } else {
        true
    }
}

/// Whether a draw from `low..high` is kept. Answers are positive integers:
/// where operands are drawn from 1 up and the shape can have a positive
/// answer over the range, a draw whose answer is not positive is drawn again.
/// Otherwise only an `a - b - c` below zero is drawn again.
pub open spec fn acceptable(shape: int, x: Seq<i32>, low: int, high: int) -> bool {
    let v = answer_of(shape, arranged(shape, x));
    if low >= 1 && positive_possible(shape, low, high) {
        v > 0
    } else {
        shape != 9 || v >= 0
    }
}

/// Every shape of difficulty `level` can have a positive answer over
/// `low..high`, with operands from 1 up: then every exercise handed out has
/// a positive answer.
pub open spec fn positive_answers(level: int, low: int, high: int) -> bool {
    &&& low >= 1
    &&& forall|shape: int| shapes_of_level(level, shape) ==> #[trigger] positive_possible(shape, low, high)
}

/// Exercises of difficulty `level` can be drawn from `low..high`: the range
/// is not empty, no draw overflows (`operands_fit`), and where `a - b - c` is
/// among the shapes, some draw makes it non-negative, so that redrawing it
/// can end.
pub open spec fn drawable(level: int, low: int, high: int) -> bool {
    &&& low < high
    &&& operands_fit(level, low, high)
    &&& (level != 1 && level != 2) ==> high - 1 - 2 * low >= 0
}

/// The bounds handed to the random draws: a shape from `shape_low..shape_high`,
/// then `len` operands from `low..high`.
pub struct DrawBounds {
    pub shape_low: i32,
    pub shape_high: i32,
    pub len: usize,
    pub low: i32,
    pub high: i32,
}

/// The shapes that difficulty `level` draws from, as a half-open range.
pub open spec fn shape_range(level: int) -> (int, int) {
    if level == 1 {
        (0, 2)
    } else if level == 2 {
        (2, 6)
    } else {
        (6, 10)
    }
}

/// The shape kept when redrawing never succeeds: the addition of the
/// difficulty (`a + b`, `( ) - a = b`, `a + b + c`).
pub open spec fn fallback_shape(level: int) -> int {
    if level == 1 {
        0
    } else if level == 2 {
        3
    } else {
        6
    }
}

/// `f` is exercise number `args[0]` as a draw for difficulty `args[1]` over
/// the operand range `args[2]..args[3]` can give it: of a shape of that
/// difficulty, built from operands in range that make a kept draw.
pub open spec fn drawn_from(args: [i32; 4], shape: int, x: Seq<i32>, f: Formula) -> bool {
    &&& shapes_of_level(args[1] as int, shape)
    &&& x.len() == operand_count(shape)
    &&& within(x, args[2] as int, args[3] as int)
    &&& acceptable(shape, x, args[2] as int, args[3] as int)
    &&& f.notation@ == built(args[0] as int, shape, x).0
    &&& f.answer == built(args[0] as int, shape, x).1
}

/// Some shape and some operands give `f` as exercise `args[0]`.
pub open spec fn can_be_drawn(args: [i32; 4], f: Formula) -> bool {
    exists|shape: int, x: Seq<i32>| #[trigger] drawn_from(args, shape, x, f)
}

/// Writing an exercise's answer into its blank makes its notation a true
/// equation, whatever the drawn operands.
pub proof fn lemma_answer_fills_blank(shape: int, x: Seq<i32>)
    requires
        0 <= shape < 10,
        x.len() == operand_count(shape),
    ensures
        equation_holds(shape, arranged(shape, x), answer_of(shape, arranged(shape, x))),
{
}

/// For an exercise that `Formula::new` can hand out, writing its answer into
/// its blank makes its notation a true equation, the numbers shown are the
/// numbers drawn, and the answer is positive where operands are.
pub proof fn lemma_drawn_answer_fills_blank(args: [i32; 4], shape: int, x: Seq<i32>, f: Formula)
    requires
        drawn_from(args, shape, x, f),
    ensures
        equation_holds(shape, arranged(shape, x), f.answer as int),
        arranged(shape, x).to_multiset() =~= x.to_multiset(),
        positive_answers(args[1] as int, args[2] as int, args[3] as int) ==> f.answer > 0,
        args[2] >= 0 ==> f.answer >= 0,
{
    lemma_answer_fills_blank(shape, x);
    lemma_arranged_reorders(shape, x);
    if positive_answers(args[1] as int, args[2] as int, args[3] as int) {
        assert(positive_possible(shape, args[2] as int, args[3] as int));
    }
    if args[2] >= 0 {
        assert forall|i: int| 0 <= i < x.len() implies x[i] >= 0 by {
            assert(args[2] <= x[i]);
        }
        if shape != 9 {
            lemma_answer_not_negative(shape, x);
        }
    }
}

/// The number of an exercise only changes the start of its text: two
/// exercises built from the same shape and operands under different numbers
/// have the same text after the number, and the same answer.
pub proof fn lemma_number_only_prefix(idx1: int, idx2: int, shape: int, x: Seq<i32>)
    ensures
        built(idx1, shape, x).0 == notation_head(idx1) + notation_body(shape, arranged(shape, x)),
        built(idx2, shape, x).0 == notation_head(idx2) + notation_body(shape, arranged(shape, x)),
        built(idx1, shape, x).0.skip(notation_head(idx1).len() as int) == built(idx2, shape, x).0.skip(
            notation_head(idx2).len() as int,
        ),
        built(idx1, shape, x).1 == built(idx2, shape, x).1,
{
    let body = notation_body(shape, arranged(shape, x));
    assert((notation_head(idx1) + body).skip(notation_head(idx1).len() as int) =~= body);
    assert((notation_head(idx2) + body).skip(notation_head(idx2).len() as int) =~= body);
}

/// Two exercises handed out for the same difficulty and range from the same
/// draw (shape and operands), under different numbers, differ only in the
/// number at the start of their text: the rest of the text and the answer
/// are the same.
pub proof fn lemma_drawn_number_only_prefix(
    args: [i32; 4],
    args2: [i32; 4],
    shape: int,
    x: Seq<i32>,
    f: Formula,
    f2: Formula,
)
    requires
        args[1] == args2[1],
        args[2] == args2[2],
        args[3] == args2[3],
        drawn_from(args, shape, x, f),
        drawn_from(args2, shape, x, f2),
    ensures
        f.answer == f2.answer,
        f.notation@.skip(notation_head(args[0] as int).len() as int) == f2.notation@.skip(
            notation_head(args2[0] as int).len() as int,
        ),
        f.notation@.take(notation_head(args[0] as int).len() as int) == notation_head(args[0] as int),
        f2.notation@.take(notation_head(args2[0] as int).len() as int) == notation_head(
            args2[0] as int,
        ),
{
    lemma_number_only_prefix(args[0] as int, args2[0] as int, shape, x);
    let body = notation_body(shape, arranged(shape, x));
    assert((notation_head(args[0] as int) + body).take(notation_head(args[0] as int).len() as int)
        =~= notation_head(args[0] as int));
    assert((notation_head(args2[0] as int) + body).take(notation_head(args2[0] as int).len() as int)
        =~= notation_head(args2[0] as int));
}

/// Ordering the operands only reorders them: the exercise shows exactly the
/// numbers that were drawn.
pub proof fn lemma_arranged_reorders(shape: int, x: Seq<i32>)
    requires
        0 <= shape < 10,
        x.len() == operand_count(shape),
    ensures
        arranged(shape, x).len() == x.len(),
        arranged(shape, x).to_multiset() =~= x.to_multiset(),
{
    broadcast use vstd::seq_lib::group_to_multiset_ensures;
    if x.len() == 2 {
        assert(x =~= seq![x[0], x[1]]);
        assert(swap_first(x) =~= seq![x[1], x[0]]);
    } else {
        assert(x =~= seq![x[0], x[1], x[2]]);
        assert(swap_first(x) =~= seq![x[1], x[0], x[2]]);
        assert(swap_last(x) =~= seq![x[0], x[2], x[1]]);
    }
}

/// With non-negative operands only `a - b - c` can come out negative: the
/// ordering rules keep every other shape at zero or above.
pub proof fn lemma_answer_not_negative(shape: int, x: Seq<i32>)
    requires
        0 <= shape < 10,
        x.len() == operand_count(shape),
        forall|i: int| 0 <= i < x.len() ==> x[i] >= 0,
        shape == 9 ==> x[0] - x[1] - x[2] >= 0,
    ensures
        answer_of(shape, arranged(shape, x)) >= 0,
{
    assert(x[0] >= 0 && x[1] >= 0);
    if shape >= 6 {
        assert(x[2] >= 0);
    }
}

/// Operands from a range that `operands_fit` admits for a difficulty can be
/// built into an exercise of any shape of that difficulty without overflow.
pub proof fn lemma_fit_operands_computable(level: int, shape: int, x: Seq<i32>, low: int, high: int)
    requires
        shapes_of_level(level, shape),
        x.len() == operand_count(shape),
        within(x, low, high),
        operands_fit(level, low, high),
    ensures
        computable(shape, x),
{
    assert(low <= x[0] < high && low <= x[1] < high);
    if shape >= 6 {
        assert(low <= x[2] < high);
    }
}

/// The fallback exercise, the difficulty's addition over the smallest
/// operand, is a draw that is kept.
proof fn lemma_fallback_kept(level: int, low: int, high: int, x: Seq<i32>)
    requires
        drawable(level, low, high),
        x.len() == operand_count(fallback_shape(level)),
        forall|i: int| 0 <= i < x.len() ==> #[trigger] x[i] == low,
    ensures
        shapes_of_level(level, fallback_shape(level)),
        within(x, low, high),
        computable(fallback_shape(level), x),
        acceptable(fallback_shape(level), x, low, high),
{
    assert(x[0] == low && x[1] == low);
    if fallback_shape(level) == 6 {
        assert(x[2] == low);
    }
}

/// Every shape of a difficulty has a draw that is kept, over any range that
/// `drawable` admits: each redraw can end the redrawing.
pub proof fn lemma_kept_draw_exists(level: int, shape: int, low: int, high: int)
    requires
        drawable(level, low, high),
        shapes_of_level(level, shape),
    ensures
        exists|x: Seq<i32>|
            x.len() == operand_count(shape) && within(x, low, high) && #[trigger] acceptable(
                shape,
                x,
                low,
                high,
            ),
{
    let h = high - 1;
    let l = low as i32;
    let t = h as i32;
    let x: Seq<i32> = if shape < 6 {
        if h > low { seq![t, l] } else { seq![l, l] }
    } else if shape == 9 {
        seq![t, l, l]
    } else {
        seq![l, l, l]
    };
    assert(x.len() == operand_count(shape) && within(x, low, high) && acceptable(shape, x, low, high));
}

/// Whether exercises of difficulty `level` can be drawn with operands from
/// `low..high`, as `drawable` says.
pub fn range_is_drawable(level: i32, low: i32, high: i32) -> (r: bool)
    ensures
        r == drawable(level as int, low as int, high as int),
{
    if low >= high {
        return false;
    }
    let l: i64 = low as i64;
    let h: i64 = (high as i64) - 1;
    let min: i64 = i32::MIN as i64;
    let max: i64 = i32::MAX as i64;
    let within = |v: i64| -> (b: bool)
        ensures
            b == (min <= v <= max),
        { min <= v && v <= max };
    if level == 1 || level == 2 {
        within(2 * l) && within(2 * h) && within(l - h) && l - h != min && within(h - l)
    } else {
        within(3 * l) && within(3 * h) && within(2 * l) && within(2 * h) && within(l - h) && within(
            h - l,
        ) && within(2 * l - h) && within(2 * h - l) && within(l - 2 * h) && within(h - 2 * l) && h
            - 2 * l >= 0
    }
}

/// The bounds of the draws for exercise `args`: the shapes of difficulty
/// `args[1]`, as many operands as those shapes take, from `args[2]..args[3]`.
pub fn draw_bounds(args: [i32; 4]) -> (b: DrawBounds)
    ensures
        b.shape_low == shape_range(args[1] as int).0,
        b.shape_high == shape_range(args[1] as int).1,
        b.len == operand_count(b.shape_low as int),
        b.low == args[2],
        b.high == args[3],
{
    let (shape_low, shape_high, len): (i32, i32, usize) = match args[1] {
        1 => (0, 2, 2),
        2 => (2, 6, 2),
        _ => (6, 10, 3),
    };
    DrawBounds { shape_low, shape_high, len, low: args[2], high: args[3] }
}

/// The operands of a draw in the order the exercise shows them, as
/// `(a, b, c)`; `c` is 0 for the two-operand shapes.
fn arrange(shape: i32, nums: &Vec<i32>) -> (r: (i32, i32, i32))
    requires
        0 <= shape < 10,
        nums@.len() == operand_count(shape as int),
        computable(shape as int, nums@),
    ensures
        r.0 == arranged(shape as int, nums@)[0],
        r.1 == arranged(shape as int, nums@)[1],
        shape >= 6 ==> r.2 == arranged(shape as int, nums@)[2],
{
    let mut a: i32 = nums[0];
    let mut b: i32 = nums[1];
    let mut c: i32 = if shape >= 6 { nums[2] } else { 0 };
    if (shape == 1 || shape == 2) && a < b {
        let t = a;
        a = b;
        b = t;
    } else if (shape == 4 || shape == 5) && a > b {
        let t = a;
        a = b;
        b = t;
    } else if shape == 7 && a + b - c < 0 {
        let t = b;
        b = c;
        c = t;
    } else if shape == 8 && a - b + c < 0 {
        let t = a;
        a = b;
        b = t;
    }
    (a, b, c)
}

/// The answer of an exercise of the given shape with operands `a`, `b`, `c`
/// in shown order.
fn answer_for(shape: i32, a: i32, b: i32, c: i32, Ghost(x): Ghost<Seq<i32>>) -> (v: i32)
    requires
        0 <= shape < 10,
        x.len() == operand_count(shape as int),
        computable(shape as int, x),
        a == arranged(shape as int, x)[0],
        b == arranged(shape as int, x)[1],
        shape >= 6 ==> c == arranged(shape as int, x)[2],
    ensures
        v == answer_of(shape as int, arranged(shape as int, x)),
{
    if shape == 0 || shape == 3 {
        a + b
    } else if shape == 6 {
        a + b + c
    } else if shape == 7 {
        a + b - c
    } else if shape == 8 {
        a - b + c
    } else if shape == 9 {
        a - b - c
    } else {
        let d = a - b;
        if d < 0 { -d } else { d }
    }
}

/// Whether a draw of the given shape and operands from `low..high` is kept.
pub fn accepts(shape: i32, nums: &Vec<i32>, low: i32, high: i32) -> (k: bool)
    requires
        0 <= shape < 10,
        nums@.len() == operand_count(shape as int),
        computable(shape as int, nums@),
    ensures
        k == acceptable(shape as int, nums@, low as int, high as int),
{
    let (a, b, c) = arrange(shape, nums);
    let v = answer_for(shape, a, b, c, Ghost(nums@));
    let l: i64 = low as i64;
    let h: i64 = (high as i64) - 1;
    let possible: bool = if shape == 1 || shape == 2 || shape == 4 || shape == 5 {
        h > l
    } else if shape == 9 {
        h - 2 * l >= 1
    } else {
        true
    };
    if low >= 1 && possible {
        v > 0
    } else {
        shape != 9 || v >= 0
    }
}

/// The text of an exercise after its number, for operands `a`, `b`, `c` in
/// shown order.
fn body_text(shape: i32, a: i32, b: i32, c: i32, Ghost(y): Ghost<Seq<i32>>) -> (s: String)
    requires
        0 <= shape < 10,
        y.len() == operand_count(shape as int),
        a == y[0],
        b == y[1],
        shape >= 6 ==> c == y[2],
    ensures
        s@ == notation_body(shape as int, y),
{
    let mut s = String::new();
    if shape == 0 {
        push_int(&mut s, a as i64);
        push_str(&mut s, " + ");
        push_int(&mut s, b as i64);
        push_str(&mut s, " = ( )");
    } else if shape == 1 {
        push_int(&mut s, a as i64);
        push_str(&mut s, " - ");
        push_int(&mut s, b as i64);
        push_str(&mut s, " = ( )");
    } else if shape == 2 {
        push_int(&mut s, a as i64);
        push_str(&mut s, " - ( ) = ");
        push_int(&mut s, b as i64);
    } else if shape == 3 {
        push_str(&mut s, "( ) - ");
        push_int(&mut s, a as i64);
        push_str(&mut s, " = ");
        push_int(&mut s, b as i64);
    } else if shape == 4 {
        push_str(&mut s, "( ) + ");
        push_int(&mut s, a as i64);
        push_str(&mut s, " = ");
        push_int(&mut s, b as i64);
    } else if shape == 5 {
        push_int(&mut s, a as i64);
        push_str(&mut s, " + ( ) = ");
        push_int(&mut s, b as i64);
    } else {
        push_int(&mut s, a as i64);
        if shape == 6 || shape == 7 {
            push_str(&mut s, " + ");
        } else {
            push_str(&mut s, " - ");
        }
        push_int(&mut s, b as i64);
        if shape == 6 || shape == 8 {
            push_str(&mut s, " + ");
        } else {
            push_str(&mut s, " - ");
        }
        push_int(&mut s, c as i64);
        push_str(&mut s, " = ( )");
    }
    assert(s@ =~= notation_body(shape as int, y));
    s
}

impl Formula {
    /// Builds exercise number `idx` of the given shape from drawn operands:
    /// orders the operands as the shape requires, writes the notation and
    /// computes the answer.
    pub fn from_draw(idx: i32, shape: i32, nums: &Vec<i32>) -> (f: Formula)
        requires
            0 <= shape < 10,
            nums@.len() == operand_count(shape as int),
            computable(shape as int, nums@),
        ensures
            f.notation@ == built(idx as int, shape as int, nums@).0,
            f.answer == built(idx as int, shape as int, nums@).1,
    {
        let ghost y = arranged(shape as int, nums@);
        let (a, b, c) = arrange(shape, nums);

        let mut s = String::new();
        push_str(&mut s, "(");
        push_int(&mut s, idx as i64);
        push_str(&mut s, ") ");
        assert(s@ =~= notation_head(idx as int));
        let text = body_text(shape, a, b, c, Ghost(y));
        push_str(&mut s, text.as_str());
        let answer = answer_for(shape, a, b, c, Ghost(nums@));
        Formula { notation: s, answer }
    }

    /// Draws exercise number `args[0]` of difficulty `args[1]` with operands
    /// from `args[2]..args[3]`: a shape of that difficulty, then its
    /// operands, which are drawn again while the draw is not kept
    /// (`acceptable`: a positive answer when operands start at 1 and the
    /// shape allows one). Over a `drawable` range every shape has kept draws
    /// (`lemma_kept_draw_exists`), so each redraw ends the redrawing with a
    /// fixed positive chance. Should `u64::MAX` redraws in a row all fail
    /// nonetheless, the difficulty's addition over the smallest operand is
    /// taken instead; so an exercise always comes back.
    pub fn new(args: [i32; 4]) -> (r: Result<Formula, &'static str>)
        requires
            drawable(args[1] as int, args[2] as int, args[3] as int),
        ensures
            r is Ok,
            r matches Ok(f) ==> can_be_drawn(args, f),
            positive_answers(args[1] as int, args[2] as int, args[3] as int) ==> (r matches Ok(f)
                ==> f.answer > 0),
            args[2] >= 0 ==> (r matches Ok(f) ==> f.answer >= 0),
    {
        let bounds = draw_bounds(args);
        let ghost level = args[1] as int;
        let mut rng = thread_rng();
        let mut shape: i32 = gen_range(&mut rng, bounds.shape_low, bounds.shape_high);
        let mut nums: Vec<i32> = sample_uniform(&mut rng, bounds.low, bounds.high, bounds.len);
        proof {
            lemma_fit_operands_computable(level, shape as int, nums@, bounds.low as int, bounds.high as int);
        }
        let mut tries: u64 = 0;
        while !accepts(shape, &nums, bounds.low, bounds.high) && tries < u64::MAX
            invariant
                bounds.low == args[2],
                bounds.high == args[3],
                drawable(level, bounds.low as int, bounds.high as int),
                shapes_of_level(level, shape as int),
                bounds.len == operand_count(shape as int),
                nums@.len() == operand_count(shape as int),
                within(nums@, bounds.low as int, bounds.high as int),
                computable(shape as int, nums@),
            decreases u64::MAX - tries,
        {
            nums = sample_uniform(&mut rng, bounds.low, bounds.high, bounds.len);
            proof {
                lemma_fit_operands_computable(level, shape as int, nums@, bounds.low as int, bounds.high as int);
            }
            tries = tries + 1;
        }
        if !accepts(shape, &nums, bounds.low, bounds.high) {
            shape = if args[1] == 1 {
                0
            } else if args[1] == 2 {
                3
            } else {
                6
            };
            nums = Vec::new();
            nums.push(bounds.low);
            nums.push(bounds.low);
            if shape == 6 {
                nums.push(bounds.low);
            }
            proof {
                assert(shape == fallback_shape(level));
                lemma_fallback_kept(level, bounds.low as int, bounds.high as int, nums@);
            }
        }
        let f = Formula::from_draw(args[0], shape, &nums);
        proof {
            assert(drawn_from(args, shape as int, nums@, f));
            assert(can_be_drawn(args, f));
            lemma_drawn_answer_fills_blank(args, shape as int, nums@, f);
        }
        Ok(f)
    }
}

impl FormulaList {
    /// An empty list for the given difficulty, mode and number range.
    pub fn empty(level: i32, mode: String, range: i32) -> (fl: FormulaList)
        ensures
            fl.list@.len() == 0,
            fl.level == level,
            fl.mode == mode,
            fl.range == range,
    {
        FormulaList { list: VecDeque::new(), level, mode, range }
    }

    /// Draws the next exercise, numbered one past the exercises already in
    /// the list, with operands from `low..self.range`, and appends it.
    pub fn push_next(&mut self, low: i32)
        requires
            drawable(old(self).level as int, low as int, old(self).range as int),
            old(self).list@.len() < i32::MAX,
        ensures
            final(self).level == old(self).level,
            final(self).mode == old(self).mode,
            final(self).range == old(self).range,
            final(self).list@.len() == old(self).list@.len() + 1,
            final(self).list@.drop_last() == old(self).list@,
            can_be_drawn(
                [(old(self).list@.len() + 1) as i32, old(self).level, low, old(self).range],
                final(self).list@.last(),
            ),
    {
        let idx: i32 = (self.list.len() + 1) as i32;
        let r = Formula::new([idx, self.level, low, self.range]);
        if let Ok(f) = r {
            self.list.push_back(f);
            assert(self.list@.drop_last() =~= old(self).list@);
        }
    }

    /// Generates a session of `count` exercises, numbered from 1, of the
    /// given difficulty with operands from `low..range`.
    pub fn new(level: i32, mode: String, count: i32, low: i32, range: i32) -> (r: Result<
        FormulaList,
        &'static str,
    >)
        requires
            drawable(level as int, low as int, range as int),
        ensures
            r is Ok,
            r matches Ok(fl) ==> {
                &&& fl.level == level
                &&& fl.mode == mode
                &&& fl.range == range
                &&& fl.list@.len() == if count < 0 { 0 } else { count as int }
                &&& forall|i: int|
                    0 <= i < fl.list@.len() ==> can_be_drawn(
                        [(i + 1) as i32, level, low, range],
                        #[trigger] fl.list@[i],
                    )
            },
    {
        let mut fl = FormulaList::empty(level, mode, range);
        let mut i: i32 = 0;
        while i < count
            invariant
                drawable(level as int, low as int, range as int),
                0 <= i,
                count >= 0 ==> i <= count,
                count < 0 ==> i == 0,
                fl.level == level,
                fl.mode == mode,
                fl.range == range,
                fl.list@.len() == i,
                forall|j: int|
                    0 <= j < fl.list@.len() ==> can_be_drawn(
                        [(j + 1) as i32, level, low, range],
                        #[trigger] fl.list@[j],
                    ),
            decreases count - i,
        {
            let ghost before = fl.list@;
            fl.push_next(low);
            assert forall|j: int| 0 <= j < fl.list@.len() implies can_be_drawn(
                [(j + 1) as i32, level, low, range],
                #[trigger] fl.list@[j],
            ) by {
                if j < before.len() {
                    assert(fl.list@[j] == fl.list@.drop_last()[j]);
                }
            }
            i = i + 1;
        }
        Ok(fl)
    }
}

} // verus!
