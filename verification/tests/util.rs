use m_calc::session_log::{mistakes, retry_first, summary, tally};
use m_calc::util::formula::Formula;
use m_calc::util::utils::get_time;
use std::collections::VecDeque;

fn f(index: u32, operator: u32, num1: u32, num2: u32) -> Formula {
    Formula { index, operator, num1, num2 }
}

#[test]
fn answers_and_texts() {
    assert_eq!(f(1, 0, 5, 8).get_answer(), 13);
    assert_eq!(f(2, 1, 13, 8).get_answer(), 5);
    assert_eq!(f(1, 0, 5, 8).get_formula(), "(1) 5 + 8 = ( ) ");
    assert_eq!(f(12, 1, 13, 8).get_formula(), "(12) 13 - 8 = ( ) ");
}

#[test]
fn validate_orders_subtractions() {
    let mut g = f(3, 1, 4, 9);
    g.validate();
    assert_eq!((g.index, g.operator, g.num1, g.num2), (3, 1, 9, 4));
    assert_eq!(g.get_answer(), 5);
    g.validate();
    assert_eq!((g.num1, g.num2), (9, 4));
    let mut h = f(3, 0, 4, 9);
    h.validate();
    assert_eq!((h.num1, h.num2), (4, 9));
    let mut k = f(3, 2, 4, 9);
    k.validate();
    assert_eq!((k.num1, k.num2), (4, 9));
    let mut m = f(3, 1, u32::MAX, 0);
    m.validate();
    assert_eq!((m.num1, m.num2), (u32::MAX, 0));
}

#[test]
fn times_split_into_minutes() {
    assert_eq!(get_time(0), (0, 0));
    assert_eq!(get_time(59), (0, 59));
    assert_eq!(get_time(60), (1, 0));
    assert_eq!(get_time(3725), (62, 5));
    assert_eq!(get_time(u32::MAX), (u32::MAX / 60, u32::MAX % 60));
}

#[test]
fn plain_session_log() {
    let list: VecDeque<Formula> = VecDeque::from(vec![f(1, 0, 2, 3), f(2, 1, 9, 4), f(3, 0, 1, 1)]);
    let (score, failed) = tally(&list, &vec![5, 6, 3]);
    assert_eq!(score, 1);
    assert_eq!(failed, VecDeque::from(vec![1, 2]));
    assert_eq!(
        summary("2021-03-17 10:00:00", score, 3, 125),
        "\n2021-03-17 10:00:00\n你的得分: 33分\n你的用时: 2分5秒\n"
    );
    assert_eq!(mistakes(&list, &failed), "错题: 2\n(2) 9 - 4 = ( ) \n(3) 1 + 1 = ( ) \n");
    let mut queue = failed.clone();
    assert!(!retry_first(&list, &mut queue, 4));
    assert!(retry_first(&list, &mut queue, 5));
    assert!(retry_first(&list, &mut queue, 2));
    assert!(queue.is_empty());
    assert_eq!(mistakes(&list, &queue), "错题: 0\n");
}
