//! What the choices offered on screen mean. A choice is the position of the
//! picked item, or `None` when the user cancelled the prompt.

use crate::user::{PRACTICE_MODE, TEST_MODE};
use vstd::prelude::*;

verus! {

/// The actions of the main menu.
#[derive(PartialEq, Eq, Structural, Clone, Copy, Debug)]
pub enum MenuAction {
    /// Start a session.
    Start,
    /// Show the best times.
    ShowRecords,
    /// Show the history of sessions.
    ShowLogs,
    /// Leave the program.
    Quit,
    /// The prompt was cancelled; the program leaves.
    Cancel,
}

/// A session's settings as its mode fixes them: the mode's name, how many
/// exercises, and the operand range `low..range`.
pub struct Preset {
    pub mode: String,
    pub count: i32,
    pub low: i32,
    pub range: i32,
}

/// The main menu offers, in order: start, best times, history, quit.
pub fn menu_action(choice: Option<usize>) -> (a: MenuAction)
    ensures
        a == match choice {
            Some(0) => MenuAction::Start,
            Some(1) => MenuAction::ShowRecords,
            Some(2) => MenuAction::ShowLogs,
            Some(_) => MenuAction::Quit,
            None => MenuAction::Cancel,
        },
{
    match choice {
        Some(0) => MenuAction::Start,
        Some(1) => MenuAction::ShowRecords,
        Some(2) => MenuAction::ShowLogs,
        Some(_) => MenuAction::Quit,
        None => MenuAction::Cancel,
    }
}

/// The number ranges offered, in order: within 20, 50, 100.
pub fn max_num_of(choice: Option<usize>) -> (r: Option<i32>)
    ensures
        r == match choice {
            Some(0) => Some(20i32),
            Some(1) => Some(50i32),
            Some(_) => Some(100i32),
            None => None,
        },
{
    match choice {
        Some(0) => Some(20),
        Some(1) => Some(50),
        Some(_) => Some(100),
        None => None,
    }
}

/// The difficulties offered, in order: 1, 2, 3.
pub fn level_of(choice: Option<usize>) -> (r: Option<i32>)
    ensures
        r == match choice {
            Some(0) => Some(1i32),
            Some(1) => Some(2i32),
            Some(_) => Some(3i32),
            None => None,
        },
{
    match choice {
        Some(0) => Some(1),
        Some(1) => Some(2),
        Some(_) => Some(3),
        None => None,
    }
}

/// The modes offered, in order: practice, test. Practice sessions have ten
/// exercises, test sessions fifty; both draw operands from 1 up to the chosen
/// range `max_num`.
pub fn preset_of(mode_choice: usize, max_num: i32) -> (p: Preset)
    ensures
        mode_choice == 0 ==> p.mode@ == PRACTICE_MODE@ && p.count == 10,
        mode_choice != 0 ==> p.mode@ == TEST_MODE@ && p.count == 50,
        p.low == 1,
        p.range == max_num,
{
    if mode_choice == 0 {
        Preset { mode: String::from_str(PRACTICE_MODE), count: 10, low: 1, range: max_num }
    } else {
        Preset { mode: String::from_str(TEST_MODE), count: 50, low: 1, range: max_num }
    }
}

/// A yes/no question offers, in order: yes, no.
pub fn yes_of(choice: Option<usize>) -> (r: Option<bool>)
    ensures
        r == match choice {
            Some(0) => Some(true),
            Some(_) => Some(false),
            None => None,
        },
{
    match choice {
        Some(0) => Some(true),
        Some(_) => Some(false),
        None => None,
    }
}

} // verus!
