use m_calc::exercise::{Formula, FormulaList};
use m_calc::session::{correct_front, grade};
use m_calc::user::{
    duration_string, profile_path, range_column, record_heading, username_from_args, Profile, User,
    NO_USERNAME, PRACTICE_MODE, TEST_MODE,
};
use std::collections::VecDeque;

fn list_of(answers: &[i32], level: i32, mode: &str, range: i32) -> FormulaList {
    let mut fl = FormulaList::empty(level, mode.to_string(), range);
    for (k, a) in answers.iter().enumerate() {
        fl.list.push_back(Formula { notation: format!("({}) {} + 0 = ( )", k + 1, a), answer: *a });
    }
    fl
}

#[test]
fn username_is_the_first_argument() {
    let args = vec!["m_calc".to_string(), "xiaoming".to_string(), "extra".to_string()];
    assert_eq!(username_from_args(&args), Ok("xiaoming".to_string()));
    assert_eq!(username_from_args(&vec!["m_calc".to_string()]), Err(NO_USERNAME));
    assert_eq!(username_from_args(&vec![]), Err("Please pass a username"));
}

#[test]
fn profile_lives_under_data() {
    assert_eq!(profile_path(&"xiaoming".to_string()), "data/xiaoming");
}

#[test]
fn new_user_starts_without_records() {
    let u = User::new("xiaoming".to_string(), None);
    assert_eq!(u.username, "xiaoming");
    assert_eq!(u.path(), "data/xiaoming");
    for i in 0..3 {
        for j in 0..3 {
            assert_eq!(u.profile().records[i][j].0, i32::MAX);
            assert_eq!(u.profile().records[i][j].1, "");
            assert!(!u.record_is_set(i, j));
        }
    }
    assert!(u.profile().logs.is_empty());
    assert!(u.log_rows().is_empty());
}

#[test]
fn stored_profile_is_kept() {
    let mut p = Profile::fresh();
    p.records[1][2] = (75, "2021-03-17 Wednesday 10:00".to_string());
    let u = User::new("a".to_string(), Some(p));
    assert_eq!(u.profile().records[1][2].0, 75);
    assert!(u.record_is_set(1, 2));
}

#[test]
fn range_columns() {
    assert_eq!(range_column(20), 0);
    assert_eq!(range_column(50), 1);
    assert_eq!(range_column(100), 2);
    assert_eq!(range_column(7), 2);
}

#[test]
fn durations_in_minutes_and_seconds() {
    assert_eq!(duration_string(0), "0分0秒");
    assert_eq!(duration_string(59), "0分59秒");
    assert_eq!(duration_string(125), "2分5秒");
    assert_eq!(duration_string(-61), "-1分-1秒");
    assert_eq!(duration_string(i32::MAX), format!("{}分{}秒", i32::MAX / 60, i32::MAX % 60));
}

#[test]
fn test_mode_full_score_sets_record() {
    let mut u = User::new("a".to_string(), None);
    let fl = list_of(&[1, 2, 3, 4], 2, TEST_MODE, 50);
    let now = "2021-03-17 Wednesday 10:00".to_string();
    assert!(u.finish_run(&fl, 4, 83, &now));
    assert_eq!(u.profile().records[1][1], (83, now.clone()));
    assert_eq!(u.profile().logs.len(), 1);
    let log = &u.profile().logs[0];
    assert_eq!(log[0], now);
    assert_eq!(log[1], "难度2");
    assert_eq!(log[2], "测试");
    assert_eq!(log[3], "100分");
    assert_eq!(log[4], "1分23秒");
    assert_eq!(log[5], "50以内");
    // A slower run, or an equally fast one, keeps the record.
    assert!(!u.finish_run(&fl, 4, 90, &"later".to_string()));
    assert!(!u.finish_run(&fl, 4, 83, &"later".to_string()));
    assert_eq!(u.profile().records[1][1], (83, now.clone()));
    // A faster run replaces it.
    assert!(u.finish_run(&fl, 4, 40, &"latest".to_string()));
    assert_eq!(u.profile().records[1][1], (40, "latest".to_string()));
    assert_eq!(u.profile().logs.len(), 4);
}

#[test]
fn practice_or_mistakes_set_no_record() {
    let mut u = User::new("a".to_string(), None);
    let practice = list_of(&[1, 2, 3], 1, PRACTICE_MODE, 20);
    assert!(!u.finish_run(&practice, 3, 10, &"d".to_string()));
    let test = list_of(&[1, 2, 3], 3, TEST_MODE, 100);
    assert!(!u.finish_run(&test, 2, 10, &"d".to_string()));
    for i in 0..3 {
        for j in 0..3 {
            assert!(!u.record_is_set(i, j));
        }
    }
    assert_eq!(u.profile().logs[1][3], "66分");
    assert_eq!(u.profile().logs[1][5], "100以内");
    assert_eq!(u.profile().logs[0][1], "难度1");
    assert_eq!(u.profile().logs[0][2], "练习");
}

#[test]
fn history_rows_are_numbered() {
    let mut u = User::new("a".to_string(), None);
    let fl = list_of(&[5], 1, PRACTICE_MODE, 20);
    u.finish_run(&fl, 1, 5, &"first".to_string());
    u.finish_run(&fl, 0, 65, &"second".to_string());
    let rows = u.log_rows();
    assert_eq!(rows.len(), 2);
    assert_eq!(
        rows[0],
        ["1", "first", "难度1", "练习", "100分", "0分5秒", "20以内"].map(|s| s.to_string())
    );
    assert_eq!(rows[1][0], "2");
    assert_eq!(rows[1][1], "second");
    assert_eq!(rows[1][4], "0分");
    assert_eq!(rows[1][5], "1分5秒");
}

#[test]
fn record_table_cells() {
    assert_eq!(record_heading(0), "难度1");
    assert_eq!(record_heading(2), "难度3");
    let mut u = User::new("a".to_string(), None);
    assert_eq!(u.record_cells(0, 0), ["20以内", "无", "无"].map(|s| s.to_string()));
    assert_eq!(u.record_cells(2, 2), ["100以内", "无", "无"].map(|s| s.to_string()));
    let fl = list_of(&[1], 3, TEST_MODE, 20);
    assert!(u.finish_run(&fl, 1, 130, &"d".to_string()));
    assert_eq!(u.record_cells(2, 0), ["20以内", "2分10秒", "d"].map(|s| s.to_string()));
    assert_eq!(u.record_cells(2, 1), ["50以内", "无", "无"].map(|s| s.to_string()));
}

#[test]
fn grading_counts_and_lists_mistakes() {
    let fl = list_of(&[3, 8, 0, 12], 1, PRACTICE_MODE, 20);
    let (score, failed) = grade(&fl.list, &vec![3, 7, 0, 21]);
    assert_eq!(score, 2);
    assert_eq!(failed, VecDeque::from(vec![1, 3]));
    let (score, failed) = grade(&fl.list, &vec![3, 8, 0, 12]);
    assert_eq!(score, 4);
    assert!(failed.is_empty());
    let (score, failed) = grade(&VecDeque::new(), &vec![]);
    assert_eq!(score, 0);
    assert!(failed.is_empty());
}

#[test]
fn correction_repeats_until_right() {
    let fl = list_of(&[3, 8, 0, 12], 1, PRACTICE_MODE, 20);
    let mut failed: VecDeque<usize> = VecDeque::from(vec![1, 3]);
    assert!(!correct_front(&fl.list, &mut failed, 9));
    assert_eq!(failed, VecDeque::from(vec![1, 3]));
    assert!(correct_front(&fl.list, &mut failed, 8));
    assert_eq!(failed, VecDeque::from(vec![3]));
    assert!(!correct_front(&fl.list, &mut failed, 8));
    assert!(correct_front(&fl.list, &mut failed, 12));
    assert!(failed.is_empty());
}
