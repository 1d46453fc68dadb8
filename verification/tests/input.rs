use m_calc::input::{parse_i32, parse_u32, reply_of, trim};
use m_calc::menu::{level_of, max_num_of, menu_action, preset_of, yes_of, MenuAction};
use m_calc::util::utils::{check_number, NumberCheck};

#[test]
fn trim_drops_surrounding_white_space() {
    for s in ["", "   ", "  42\n", "\t a b \r\n", "\u{3000}5\u{a0}", "x", "\u{2003}\u{85}y z\u{2029}"] {
        assert_eq!(trim(s), s.trim());
    }
}

#[test]
fn parse_i32_as_std() {
    for s in [
        "0", "42", "+42", "-42", "-0", "007", "", "+", "-", "+-1", "1 2", "abc", "2147483647",
        "2147483648", "-2147483648", "-2147483649", "99999999999999999999", "١٢",
    ] {
        assert_eq!(parse_i32(s), s.parse::<i32>().ok(), "{:?}", s);
    }
}

#[test]
fn parse_u32_as_std() {
    for s in ["0", "42", "+42", "-42", "-0", "", "+", "4294967295", "4294967296", "3.5"] {
        assert_eq!(parse_u32(s), s.parse::<u32>().ok(), "{:?}", s);
    }
}

#[test]
fn replies_read_after_trimming() {
    assert_eq!(reply_of("13\n"), Some(13));
    assert_eq!(reply_of("  -4 \r\n"), Some(-4));
    assert_eq!(reply_of("thirteen\n"), None);
    assert_eq!(reply_of("\n"), None);
}

#[test]
fn numbers_checked_against_range() {
    assert_eq!(check_number("5\n", 1, 10), NumberCheck::Valid(5));
    assert_eq!(check_number(" 10 ", 1, 10), NumberCheck::Valid(10));
    assert_eq!(check_number("11", 1, 10), NumberCheck::OutOfRange);
    assert_eq!(check_number("0", 1, 10), NumberCheck::OutOfRange);
    assert_eq!(check_number("-1", 0, 10), NumberCheck::NotANumber);
    assert_eq!(check_number("", u32::MIN, u32::MAX), NumberCheck::NotANumber);
}

#[test]
fn menu_choices() {
    assert_eq!(menu_action(Some(0)), MenuAction::Start);
    assert_eq!(menu_action(Some(1)), MenuAction::ShowRecords);
    assert_eq!(menu_action(Some(2)), MenuAction::ShowLogs);
    assert_eq!(menu_action(Some(3)), MenuAction::Quit);
    assert_eq!(menu_action(None), MenuAction::Cancel);
    assert_eq!(max_num_of(Some(0)), Some(20));
    assert_eq!(max_num_of(Some(1)), Some(50));
    assert_eq!(max_num_of(Some(2)), Some(100));
    assert_eq!(max_num_of(None), None);
    assert_eq!(level_of(Some(0)), Some(1));
    assert_eq!(level_of(Some(1)), Some(2));
    assert_eq!(level_of(Some(2)), Some(3));
    assert_eq!(level_of(None), None);
    assert_eq!(yes_of(Some(0)), Some(true));
    assert_eq!(yes_of(Some(1)), Some(false));
    assert_eq!(yes_of(None), None);
}

#[test]
fn presets_of_modes() {
    let p = preset_of(0, 50);
    assert_eq!((p.mode.as_str(), p.count, p.low, p.range), ("练习", 10, 1, 50));
    let p = preset_of(1, 20);
    assert_eq!((p.mode.as_str(), p.count, p.low, p.range), ("测试", 50, 1, 20));
}
