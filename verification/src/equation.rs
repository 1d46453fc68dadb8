//! Exercises read back as equations. An equation is a left side of terms
//! joined by `+` and `-`, then `=`, then one term; a term is a number or the
//! blank `( )`. This gives an independent reading of an exercise's text:
//! the text is such an equation, with the drawn numbers in it, and it is
//! true once the answer is written into its one blank.

use crate::exercise::{
    answer_of, arranged, built, notation_body, notation_head, operand_count, swap_first, swap_last,
};
use crate::text::int_text;
use vstd::prelude::*;

verus! {

/// The text of a term: its number, or `( )` for the blank (`None`).
pub open spec fn term_text(t: Option<int>) -> Seq<char> {
    match t {
        Some(n) => int_text(n),
        None => "( )"@,
    }
}

/// The text of a sign between two terms: `+` for `true`, `-` for `false`.
pub open spec fn sign_text(plus: bool) -> Seq<char> {
    if plus {
        " + "@
    } else {
        " - "@
    }
}

/// The text of a left side: the terms with `signs[i - 1]` before term `i`.
pub open spec fn side_text(terms: Seq<Option<int>>, signs: Seq<bool>) -> Seq<char>
    decreases terms.len(),
{
    if terms.len() == 0 {
        Seq::empty()
    } else if terms.len() == 1 {
        term_text(terms[0])
    } else {
        side_text(terms.drop_last(), signs.drop_last()) + sign_text(signs.last()) + term_text(
            terms.last(),
        )
    }
}

/// The text of an equation `terms = rhs`.
pub open spec fn equation_text(terms: Seq<Option<int>>, signs: Seq<bool>, rhs: Option<int>) -> Seq<
    char,
> {
    side_text(terms, signs) + " = "@ + term_text(rhs)
}

/// The value of a term once `v` is written into the blank.
pub open spec fn term_value(t: Option<int>, v: int) -> int {
    match t {
        Some(n) => n,
        None => v,
    }
}

/// The value of a left side, worked from left to right, once `v` is written
/// into the blank.
pub open spec fn side_value(terms: Seq<Option<int>>, signs: Seq<bool>, v: int) -> int
    decreases terms.len(),
{
    if terms.len() == 0 {
        0
    } else if terms.len() == 1 {
        term_value(terms[0], v)
    } else {
        side_value(terms.drop_last(), signs.drop_last(), v) + if signs.last() {
            term_value(terms.last(), v)
        } else {
            -term_value(terms.last(), v)
        }
    }
}

/// Whether the equation is true with `v` in its blank.
pub open spec fn true_with(terms: Seq<Option<int>>, signs: Seq<bool>, rhs: Option<int>, v: int) -> bool {
    side_value(terms, signs, v) == term_value(rhs, v)
}

/// The numbers that an equation shows, left to right.
pub open spec fn shown_numbers(terms: Seq<Option<int>>) -> Seq<int>
    decreases terms.len(),
{
    if terms.len() == 0 {
        Seq::empty()
    } else {
        let rest = shown_numbers(terms.drop_last());
        match terms.last() {
            Some(n) => rest.push(n),
            None => rest,
        }
    }
}

/// How many blanks the terms hold.
pub open spec fn blank_count(terms: Seq<Option<int>>) -> int
    decreases terms.len(),
{
    if terms.len() == 0 {
        0
    } else {
        blank_count(terms.drop_last()) + if terms.last() is None { 1int } else { 0int }
    }
}

/// The equation an exercise of the given shape shows, for operands `y` in
/// shown order: its left-side terms, its signs, and its right side.
pub open spec fn exercise_equation(shape: int, y: Seq<i32>) -> (Seq<Option<int>>, Seq<bool>, Option<
    int,
>) {
    let a = Some(y[0] as int);
    let b = Some(y[1] as int);
    if shape == 0 {
        (seq![a, b], seq![true], None)
    } else if shape == 1 {
        (seq![a, b], seq![false], None)
    } else if shape == 2 {
        (seq![a, None], seq![false], b)
    } else if shape == 3 {
        (seq![None, a], seq![false], b)
    } else if shape == 4 {
        (seq![None, a], seq![true], b)
    } else if shape == 5 {
        (seq![a, None], seq![true], b)
    } else {
        let c = Some(y[2] as int);
        if shape == 6 {
            (seq![a, b, c], seq![true, true], None)
        } else if shape == 7 {
            (seq![a, b, c], seq![true, false], None)
        } else if shape == 8 {
            (seq![a, b, c], seq![false, true], None)
        } else {
            (seq![a, b, c], seq![false, false], None)
        }
    }
}

proof fn lemma_two(t0: Option<int>, t1: Option<int>, s0: bool, v: int)
    ensures
        side_text(seq![t0, t1], seq![s0]) == term_text(t0) + sign_text(s0) + term_text(t1),
        side_value(seq![t0, t1], seq![s0], v) == term_value(t0, v) + (if s0 {
            term_value(t1, v)
        } else {
            -term_value(t1, v)
        }),
        shown_numbers(seq![t0, t1]) == shown_numbers(seq![t0]) + shown_numbers(seq![t1]),
        blank_count(seq![t0, t1]) == blank_count(seq![t0]) + blank_count(seq![t1]),
{
    reveal_with_fuel(side_text, 4);
    reveal_with_fuel(side_value, 4);
    reveal_with_fuel(shown_numbers, 4);
    reveal_with_fuel(blank_count, 4);
    let ts = seq![t0, t1];
    assert(ts.drop_last() =~= seq![t0]);
    assert(seq![s0].drop_last() =~= Seq::<bool>::empty());
    assert(seq![t0].drop_last() =~= Seq::<Option<int>>::empty());
    assert(seq![t1].drop_last() =~= Seq::<Option<int>>::empty());
    assert(shown_numbers(seq![t0, t1]) =~= shown_numbers(seq![t0]) + shown_numbers(seq![t1]));
}

proof fn lemma_three(t0: Option<int>, t1: Option<int>, t2: Option<int>, s0: bool, s1: bool, v: int)
    ensures
        side_text(seq![t0, t1, t2], seq![s0, s1]) == term_text(t0) + sign_text(s0) + term_text(t1)
            + sign_text(s1) + term_text(t2),
        side_value(seq![t0, t1, t2], seq![s0, s1], v) == term_value(t0, v) + (if s0 {
            term_value(t1, v)
        } else {
            -term_value(t1, v)
        }) + (if s1 {
            term_value(t2, v)
        } else {
            -term_value(t2, v)
        }),
        shown_numbers(seq![t0, t1, t2]) == shown_numbers(seq![t0, t1]) + shown_numbers(seq![t2]),
        blank_count(seq![t0, t1, t2]) == blank_count(seq![t0, t1]) + blank_count(seq![t2]),
{
    reveal_with_fuel(side_text, 4);
    reveal_with_fuel(side_value, 4);
    reveal_with_fuel(shown_numbers, 4);
    reveal_with_fuel(blank_count, 4);
    lemma_two(t0, t1, s0, v);
    let ts = seq![t0, t1, t2];
    assert(ts.drop_last() =~= seq![t0, t1]);
    assert(seq![s0, s1].drop_last() =~= seq![s0]);
    assert(seq![t2].drop_last() =~= Seq::<Option<int>>::empty());
    assert(shown_numbers(ts) =~= shown_numbers(seq![t0, t1]) + shown_numbers(seq![t2]));
}

proof fn lemma_one(t: Option<int>)
    ensures
        shown_numbers(seq![t]) == (match t {
            Some(n) => seq![n],
            None => Seq::<int>::empty(),
        }),
        blank_count(seq![t]) == (if t is None { 1int } else { 0int }),
{
    reveal_with_fuel(shown_numbers, 4);
    reveal_with_fuel(blank_count, 4);
    assert(seq![t].drop_last() =~= Seq::<Option<int>>::empty());
    assert(shown_numbers(seq![t]) =~= (match t {
        Some(n) => seq![n],
        None => Seq::<int>::empty(),
    }));
}

/// Every exercise, read as an equation, is true with its answer in its
/// blank: its text is its number followed by an equation of `+`, `-` and
/// `=` with exactly one blank, the numbers it shows are the drawn operands in
/// shown order, and writing the answer into the blank makes it hold. This
/// holds for every shape and all operand values.
pub proof fn lemma_exercise_is_true_equation(idx: int, shape: int, x: Seq<i32>)
    requires
        0 <= shape < 10,
        x.len() == operand_count(shape),
    ensures
        ({
            let y = arranged(shape, x);
            let (terms, signs, rhs) = exercise_equation(shape, y);
            &&& built(idx, shape, x).0 == notation_head(idx) + equation_text(terms, signs, rhs)
            &&& true_with(terms, signs, rhs, built(idx, shape, x).1)
            &&& blank_count(terms.push(rhs)) == 1
            &&& shown_numbers(terms.push(rhs)) == y.map_values(|n: i32| n as int)
        }),
{
    reveal_strlit("( )");
    reveal_strlit(" + ");
    reveal_strlit(" - ");
    reveal_strlit(" = ");
    reveal_strlit(" = ( )");
    reveal_strlit(" - ( ) = ");
    reveal_strlit(" + ( ) = ");
    reveal_strlit("( ) - ");
    reveal_strlit("( ) + ");
    let y = arranged(shape, x);
    assert(y.len() == x.len()) by {
        if (shape == 1 || shape == 2) && x[0] < x[1] {
            assert(y == swap_first(x));
        } else if (shape == 4 || shape == 5) && x[0] > x[1] {
            assert(y == swap_first(x));
        } else if shape == 7 && x[0] + x[1] - x[2] < 0 {
            assert(y == swap_last(x));
        } else if shape == 8 && x[0] - x[1] + x[2] < 0 {
            assert(y == swap_first(x));
        }
    }
    let (terms, signs, rhs) = exercise_equation(shape, y);
    let v = answer_of(shape, y);
    let a = Some(y[0] as int);
    let b = Some(y[1] as int);
    let ys = y.map_values(|n: i32| n as int);
    lemma_one(a);
    lemma_one(b);
    lemma_one(None);
    if shape < 6 {
        assert(terms.push(rhs) =~= seq![terms[0], terms[1], rhs]);
        lemma_two(terms[0], terms[1], signs[0], v);
        lemma_three(terms[0], terms[1], rhs, signs[0], true, v);
        lemma_two(terms[0], terms[1], true, v);
        assert(ys =~= seq![y[0] as int, y[1] as int]);
        assert(notation_body(shape, y) =~= side_text(terms, signs) + " = "@ + term_text(rhs));
        assert(shown_numbers(terms.push(rhs)) =~= ys);
    } else {
        let c = Some(y[2] as int);
        lemma_one(c);
        assert(terms.push(rhs) =~= seq![terms[0], terms[1], terms[2], rhs]);
        lemma_three(terms[0], terms[1], terms[2], signs[0], signs[1], v);
        lemma_two(terms[0], terms[1], signs[0], v);
        let four = seq![terms[0], terms[1], terms[2], rhs];
        assert(four.drop_last() =~= seq![terms[0], terms[1], terms[2]]);
        assert(seq![rhs].drop_last() =~= Seq::<Option<int>>::empty());
        assert(ys =~= seq![y[0] as int, y[1] as int, y[2] as int]);
        assert(notation_body(shape, y) =~= side_text(terms, signs) + " = "@ + term_text(rhs));
        assert(shown_numbers(four) =~= ys);
    }
    assert(built(idx, shape, x).0 =~= notation_head(idx) + equation_text(terms, signs, rhs));
}

} // verus!
