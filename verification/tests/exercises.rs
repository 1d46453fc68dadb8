use m_calc::exercise::{draw_bounds, range_is_drawable, Formula, FormulaList};
use m_calc::menu::preset_of;
use m_calc::text::int_to_string;

/// Splits a notation such as "(3) 5 + ( ) = 9" into its number, its terms
/// (None for the blank) and its operators.
fn parse_notation(n: &str) -> (i64, Vec<Option<i64>>, Vec<char>) {
    let close = n.find(") ").unwrap();
    let idx: i64 = n[1..close].parse().unwrap();
    let rest = &n[close + 2..];
    let (lhs, rhs) = rest.split_once(" = ").unwrap();
    let mut terms = Vec::new();
    let mut ops = Vec::new();
    let toks: Vec<&str> = lhs.split(' ').collect();
    let mut i = 0;
    while i < toks.len() {
        if toks[i] == "(" {
            terms.push(None);
            i += 2;
        } else {
            terms.push(Some(toks[i].parse().unwrap()));
            i += 1;
        }
        if i < toks.len() {
            ops.push(toks[i].chars().next().unwrap());
            i += 1;
        }
    }
    if rhs == "( )" {
        terms.push(None);
    } else {
        terms.push(Some(rhs.parse().unwrap()));
    }
    (idx, terms, ops)
}

/// Whether the notation holds once its blank is filled with `answer`.
fn holds(n: &str, answer: i64) -> bool {
    let (_, terms, ops) = parse_notation(n);
    let vals: Vec<i64> = terms.iter().map(|t| t.unwrap_or(answer)).collect();
    let mut acc = vals[0];
    for (k, op) in ops.iter().enumerate() {
        if *op == '+' {
            acc += vals[k + 1];
        } else {
            acc -= vals[k + 1];
        }
    }
    acc == *vals.last().unwrap()
}

fn operands(n: &str) -> Vec<i64> {
    let (_, terms, _) = parse_notation(n);
    terms.into_iter().flatten().collect()
}

#[test]
fn test_ternary_formula() {
    let this: FormulaList = FormulaList::new(3, "测试".to_string(), 50, 1, 20).unwrap();
    assert_eq!(this.list.len(), 50);
    this.list.iter().for_each(|i| {
        println!("{} [{}]", i.notation, i.answer);
    });
    for (k, f) in this.list.iter().enumerate() {
        let (idx, terms, ops) = parse_notation(&f.notation);
        assert_eq!(idx, k as i64 + 1);
        assert_eq!(ops.len(), 2, "{}", f.notation);
        assert_eq!(terms.last(), Some(&None));
        assert!(f.answer > 0, "{}", f.notation);
        assert!(holds(&f.notation, f.answer as i64), "{}", f.notation);
    }
}

#[test]
fn from_draw_addition() {
    let f = Formula::from_draw(1, 0, &vec![5, 8]);
    assert_eq!(f.notation, "(1) 5 + 8 = ( )");
    assert_eq!(f.answer, 13);
}

#[test]
fn from_draw_subtraction_puts_larger_first() {
    let f = Formula::from_draw(2, 1, &vec![3, 8]);
    assert_eq!(f.notation, "(2) 8 - 3 = ( )");
    assert_eq!(f.answer, 5);
    let g = Formula::from_draw(2, 1, &vec![8, 3]);
    assert_eq!(g.notation, "(2) 8 - 3 = ( )");
    assert_eq!(g.answer, 5);
}

#[test]
fn from_draw_blank_shapes() {
    let f = Formula::from_draw(3, 2, &vec![4, 13]);
    assert_eq!(f.notation, "(3) 13 - ( ) = 4");
    assert_eq!(f.answer, 9);
    let f = Formula::from_draw(4, 3, &vec![6, 7]);
    assert_eq!(f.notation, "(4) ( ) - 6 = 7");
    assert_eq!(f.answer, 13);
    let f = Formula::from_draw(5, 4, &vec![9, 2]);
    assert_eq!(f.notation, "(5) ( ) + 2 = 9");
    assert_eq!(f.answer, 7);
    let f = Formula::from_draw(6, 5, &vec![5, 13]);
    assert_eq!(f.notation, "(6) 5 + ( ) = 13");
    assert_eq!(f.answer, 8);
    let f = Formula::from_draw(6, 5, &vec![13, 5]);
    assert_eq!(f.notation, "(6) 5 + ( ) = 13");
    assert_eq!(f.answer, 8);
}

#[test]
fn from_draw_three_operands() {
    let f = Formula::from_draw(7, 6, &vec![1, 2, 3]);
    assert_eq!(f.notation, "(7) 1 + 2 + 3 = ( )");
    assert_eq!(f.answer, 6);
    // 2 + 3 - 9 would go below zero: the last two are exchanged.
    let f = Formula::from_draw(8, 7, &vec![2, 3, 9]);
    assert_eq!(f.notation, "(8) 2 + 9 - 3 = ( )");
    assert_eq!(f.answer, 8);
    let f = Formula::from_draw(8, 7, &vec![5, 6, 8]);
    assert_eq!(f.notation, "(8) 5 + 6 - 8 = ( )");
    assert_eq!(f.answer, 3);
    // 2 - 9 + 3 would go below zero: the first two are exchanged.
    let f = Formula::from_draw(9, 8, &vec![2, 9, 3]);
    assert_eq!(f.notation, "(9) 9 - 2 + 3 = ( )");
    assert_eq!(f.answer, 10);
    let f = Formula::from_draw(10, 9, &vec![20, 5, 3]);
    assert_eq!(f.notation, "(10) 20 - 5 - 3 = ( )");
    assert_eq!(f.answer, 12);
}

#[test]
fn from_draw_negative_operands() {
    let f = Formula::from_draw(-1, 0, &vec![-5, 3]);
    assert_eq!(f.notation, "(-1) -5 + 3 = ( )");
    assert_eq!(f.answer, -2);
}

#[test]
fn new_draws_shapes_of_each_level() {
    for (level, ops, blanks_left) in [(1, 1, false), (2, 1, true), (3, 2, false)] {
        let mut seen = std::collections::HashSet::new();
        for k in 0..400 {
            let f = Formula::new([k + 1, level, 1, 20]).unwrap();
            let (idx, terms, o) = parse_notation(&f.notation);
            assert_eq!(idx, k as i64 + 1);
            assert_eq!(o.len(), ops);
            let blank = terms.iter().position(|t| t.is_none()).unwrap();
            if blanks_left {
                assert!(blank < terms.len() - 1, "{}", f.notation);
            } else {
                assert_eq!(blank, terms.len() - 1, "{}", f.notation);
            }
            for v in operands(&f.notation) {
                assert!((1..20).contains(&v), "{}", f.notation);
            }
            assert!(f.answer > 0, "{}", f.notation);
            assert!(holds(&f.notation, f.answer as i64), "{}", f.notation);
            seen.insert((o.clone(), blank));
        }
        let expected = match level {
            1 => 2,
            2 => 4,
            _ => 4,
        };
        assert_eq!(seen.len(), expected, "level {}", level);
    }
}

#[test]
fn new_draws_varied_operands() {
    let mut values = std::collections::HashSet::new();
    for k in 0..200 {
        let f = Formula::new([k, 1, 1, 100]).unwrap();
        for v in operands(&f.notation) {
            assert!((1..100).contains(&v));
            values.insert(v);
        }
    }
    assert!(values.len() > 20);
}

#[test]
fn new_with_narrow_range_gives_positive_answers() {
    for k in 0..200 {
        let f = Formula::new([k, 1, 7, 9]).unwrap();
        assert!(f.answer > 0, "{}", f.notation);
        assert!(holds(&f.notation, f.answer as i64), "{}", f.notation);
        let g = Formula::new([k, 2, 7, 9]).unwrap();
        assert!(g.answer > 0, "{}", g.notation);
    }
}

#[test]
fn answers_are_positive_at_every_level() {
    for level in 1..=3 {
        for k in 0..300 {
            let f = Formula::new([k, level, 1, 20]).unwrap();
            assert!(f.answer > 0, "{}", f.notation);
        }
    }
}

#[test]
fn bounds_of_the_draws() {
    for (level, shapes, len) in [(1, (0, 2), 2), (2, (2, 6), 2), (3, (6, 10), 3), (7, (6, 10), 3)] {
        let b = draw_bounds([4, level, 1, 50]);
        assert_eq!((b.shape_low, b.shape_high), shapes);
        assert_eq!(b.len, len);
        assert_eq!((b.low, b.high), (1, 50));
    }
}

#[test]
fn drawable_ranges_depend_on_difficulty() {
    assert!(range_is_drawable(1, 1, 20));
    assert!(range_is_drawable(3, 1, 100));
    assert!(!range_is_drawable(1, 5, 5));
    assert!(range_is_drawable(1, 0, 1_000_000_000));
    assert!(range_is_drawable(2, 0, 1_000_000_000));
    assert!(!range_is_drawable(3, 0, 1_000_000_000));
    assert!(!range_is_drawable(1, 0, i32::MAX));
    let f = Formula::new([1, 1, 0, 1_000_000_000]).unwrap();
    assert!(f.answer >= 0);
}

#[test]
fn push_next_numbers_exercises() {
    let mut fl = FormulaList::empty(2, "练习".to_string(), 50);
    for _ in 0..5 {
        fl.push_next(1);
    }
    assert_eq!(fl.list.len(), 5);
    for (k, f) in fl.list.iter().enumerate() {
        assert!(f.notation.starts_with(&format!("({}) ", k + 1)));
    }
    assert_eq!(fl.level, 2);
    assert_eq!(fl.mode, "练习");
    assert_eq!(fl.range, 50);
}

#[test]
fn new_list_with_no_exercises() {
    let fl = FormulaList::new(1, "练习".to_string(), 0, 1, 20).unwrap();
    assert!(fl.list.is_empty());
    let fl = FormulaList::new(1, "练习".to_string(), -3, 1, 20).unwrap();
    assert!(fl.list.is_empty());
}

#[test]
fn integers_render_in_decimal() {
    for n in [0i64, 7, 10, 99, 100, 12345, -1, -90, i64::MAX, i64::MIN] {
        assert_eq!(int_to_string(n), n.to_string());
    }
}

#[test]
fn number_only_changes_the_prefix() {
    let f = Formula::from_draw(3, 7, &vec![2, 3, 9]);
    let g = Formula::from_draw(42, 7, &vec![2, 3, 9]);
    assert_eq!(f.notation.strip_prefix("(3) "), g.notation.strip_prefix("(42) "));
    assert_eq!(f.answer, g.answer);
}

#[test]
fn modes_give_ten_or_fifty_exercises() {
    for (choice, mode, count) in [(0usize, "练习", 10usize), (1, "测试", 50)] {
        let p = preset_of(choice, 20);
        let fl = FormulaList::new(2, p.mode, p.count, p.low, p.range).unwrap();
        assert_eq!(fl.mode, mode);
        assert_eq!(fl.list.len(), count);
    }
}

#[test]
fn narrow_ranges_keep_zero_where_nothing_positive_exists() {
    for k in 0..100 {
        let f = Formula::new([k, 1, 1, 2]).unwrap();
        assert!(f.notation.ends_with("1 + 1 = ( )") || f.notation.ends_with("1 - 1 = ( )"));
        assert!(f.answer == 2 || f.answer == 0);
        let g = Formula::new([k, 3, 1, 3]).unwrap();
        assert!(g.answer >= 0, "{}", g.notation);
        assert!(holds(&g.notation, g.answer as i64), "{}", g.notation);
    }
    assert!(!range_is_drawable(3, 1, 2));
    assert!(range_is_drawable(3, 1, 3));
    assert!(range_is_drawable(1, 1, 2));
}
