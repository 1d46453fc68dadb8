//! A user's profile: the best time of each difficulty and number range, the
//! history of sessions, and what a finished session writes into both.

use crate::exercise::FormulaList;
use crate::input::{lemma_i32_text_reads_back, parsed_i32};
use crate::text::{digits, int_text, push_count, push_int, push_str};
use vstd::prelude::*;

verus! {

/// The mode whose sessions count for the best-time records.
pub const TEST_MODE: &'static str = "测试";

/// The mode of short practice sessions.
pub const PRACTICE_MODE: &'static str = "练习";

/// The error of `username_from_args` when no username was passed.
pub const NO_USERNAME: &'static str = "Please pass a username";

/// What a user has done: `records[level - 1][range column]` holds the best
/// time in seconds and the date it was set (`i32::MAX` and an empty date
/// while there is none); `logs` holds one entry per session: date,
/// difficulty, mode, score, time taken and number range.
pub struct Profile {
    pub records: [[(i32, String); 3]; 3],
    pub logs: Vec<[String; 6]>,
}

/// A user, the file their profile is kept in, and the profile.
pub struct User {
    pub username: String,
    pub path: String,
    pub profile: Profile,
}

/// The column of the records table for a number range: 20, 50, and any other
/// range counting as 100.
pub open spec fn range_column_of(range: int) -> int {
    if range == 20 { 0 } else if range == 50 { 1 } else { 2 }
}

/// Rust's `/` on integers, which rounds towards zero.
pub open spec fn quot(a: int, b: int) -> int {
    if a >= 0 { a / b } else { -((-a) / b) }
}

/// Rust's `%` on integers, which takes the sign of the dividend.
pub open spec fn rem(a: int, b: int) -> int {
    if a >= 0 { a % b } else { -((-a) % b) }
}

/// A duration in seconds as minutes and seconds: `"{m}分{s}秒"`.
pub open spec fn duration_text(time: int) -> Seq<char> {
    int_text(quot(time, 60)) + "分"@ + int_text(rem(time, 60)) + "秒"@
}

/// The history entry of a session.
pub open spec fn log_entry_is(
    log: [String; 6],
    now: Seq<char>,
    level: int,
    mode: Seq<char>,
    percent: int,
    time: int,
    range: int,
) -> bool {
    &&& log[0]@ == now
    &&& log[1]@ == "难度"@ + int_text(level)
    &&& log[2]@ == mode
    &&& log[3]@ == int_text(percent) + "分"@
    &&& log[4]@ == duration_text(time)
    &&& log[5]@ == int_text(range) + "以内"@
}

/// A history entry reads back: its difficulty, score and range are the
/// numbers written after `难度`, before `分` and before `以内`, and its time is
/// whole minutes and the seconds left over.
pub proof fn lemma_log_entry_reads_back(
    log: [String; 6],
    now: Seq<char>,
    level: i32,
    mode: Seq<char>,
    percent: i32,
    time: i32,
    range: i32,
)
    requires
        log_entry_is(log, now, level as int, mode, percent as int, time as int, range as int),
        time >= 0,
    ensures
        log[1]@.take(2) == "难度"@,
        parsed_i32(log[1]@.skip(2)) == Some(level),
        parsed_i32(log[3]@.take(log[3]@.len() - 1)) == Some(percent),
        log[3]@.last() == '分',
        parsed_i32(log[5]@.take(log[5]@.len() - 2)) == Some(range),
        log[5]@.skip(log[5]@.len() - 2) == "以内"@,
        exists|m: int, s: int|
            #![trigger int_text(m), int_text(s)]
            m >= 0 && 0 <= s < 60 && m * 60 + s == time && log[4]@ == int_text(m) + "分"@ + int_text(
                s,
            ) + "秒"@,
{
    reveal_strlit("难度");
    reveal_strlit("分");
    reveal_strlit("以内");
    assert(log[1]@.take(2) =~= "难度"@);
    assert(log[1]@.skip(2) =~= int_text(level as int));
    lemma_i32_text_reads_back(level);
    assert(log[3]@.take(log[3]@.len() - 1) =~= int_text(percent as int));
    lemma_i32_text_reads_back(percent);
    assert(log[5]@.take(log[5]@.len() - 2) =~= int_text(range as int));
    assert(log[5]@.skip(log[5]@.len() - 2) =~= "以内"@);
    lemma_i32_text_reads_back(range);
    lemma_duration_minutes_seconds(time as int);
}

/// The records table's columns follow the ranges: the column of range 20, 50
/// and 100 shows that range.
pub proof fn lemma_columns_show_their_range(range: int)
    requires
        range == 20 || range == 50 || range == 100,
    ensures
        column_range(range_column_of(range)) == range,
{
}

/// A session sets a new record when it was taken in test mode, every
/// answer was right, and it took less time than the record it competes with.
pub open spec fn sets_record(mode: Seq<char>, score: int, total: int, time: int, best: int) -> bool {
    mode == TEST_MODE@ && score == total && time < best
}

/// The record of a difficulty and range after a session of the given mode,
/// score out of `total` and time, finished at `now`: the session's time and
/// date when it sets a record, else the record as it was.
pub open spec fn record_after(
    best: (i32, String),
    mode: Seq<char>,
    score: int,
    total: int,
    time: i32,
    now: String,
) -> (i32, String) {
    if sets_record(mode, score, total, time as int, best.0 as int) {
        (time, now)
    } else {
        best
    }
}

/// A best time never gets worse: a record only changes to a strictly
/// faster time.
pub proof fn lemma_record_never_worse(
    best: (i32, String),
    mode: Seq<char>,
    score: int,
    total: int,
    time: i32,
    now: String,
)
    ensures
        record_after(best, mode, score, total, time, now).0 <= best.0,
        record_after(best, mode, score, total, time, now) != best ==> record_after(
            best,
            mode,
            score,
            total,
            time,
            now,
        ).0 < best.0,
{
}

/// A record changes only after a test-mode session with every answer right
/// that took strictly less time than the record; such a session always
/// becomes the record, with its time and date.
pub proof fn lemma_record_only_full_score_test(
    best: (i32, String),
    mode: Seq<char>,
    score: int,
    total: int,
    time: i32,
    now: String,
)
    ensures
        record_after(best, mode, score, total, time, now) != best ==> mode == "测试"@ && score
            == total && time < best.0,
        mode == "测试"@ && score == total && time < best.0 ==> record_after(
            best,
            mode,
            score,
            total,
            time,
            now,
        ) == (time, now),
        score != total ==> record_after(best, mode, score, total, time, now) == best,
{
}

/// The profile of a new user: no record set and no history.
pub open spec fn is_fresh(p: Profile) -> bool {
    &&& forall|i: int, j: int| 0 <= i < 3 && 0 <= j < 3 ==> #[trigger] p.records[i][j].0 == i32::MAX
        && p.records[i][j].1@ == Seq::<char>::empty()
    &&& p.logs@.len() == 0
}

/// The column of the records table for a number range.
pub fn range_column(range: i32) -> (j: usize)
    ensures
        j == range_column_of(range as int),
{
    match range {
        20 => 0,
        50 => 1,
        _ => 2,
    }
}

/// A duration's text gives whole minutes and the seconds left over: for a
/// time of `t >= 0` seconds it is `"{m}分{s}秒"` with `m * 60 + s == t` and
/// `0 <= s < 60`.
pub proof fn lemma_duration_minutes_seconds(time: int)
    requires
        time >= 0,
    ensures
        exists|m: int, s: int|
            #![trigger int_text(m), int_text(s)]
            m >= 0 && 0 <= s < 60 && m * 60 + s == time && duration_text(time) == int_text(m) + "分"@
                + int_text(s) + "秒"@,
{
    let m = time / 60;
    let s = time % 60;
    assert(m * 60 + s == time);
    assert(duration_text(time) == int_text(m) + "分"@ + int_text(s) + "秒"@);
}

/// The time taken, as minutes and seconds.
pub fn duration_string(time: i32) -> (s: String)
    ensures
        s@ == duration_text(time as int),
        time >= 0 ==> exists|m: int, r: int|
            #![trigger int_text(m), int_text(r)]
            m >= 0 && 0 <= r < 60 && m * 60 + r == time && s@ == int_text(m) + "分"@ + int_text(r)
                + "秒"@,
{
    let t: i64 = time as i64;
    let (m, r): (i64, i64) = if t >= 0 {
        (t / 60, t % 60)
    } else {
        (-((-t) / 60), -((-t) % 60))
    };
    let mut s = String::new();
    push_int(&mut s, m);
    push_str(&mut s, "分");
    push_int(&mut s, r);
    push_str(&mut s, "秒");
    assert(s@ =~= duration_text(time as int));
    proof {
        if time >= 0 {
            lemma_duration_minutes_seconds(time as int);
        }
    }
    s
}

impl Profile {
    /// The profile of a new user.
    pub fn fresh() -> (p: Profile)
        ensures
            is_fresh(p),
    {
        Profile {
            records: [
                [(i32::MAX, String::new()), (i32::MAX, String::new()), (i32::MAX, String::new())],
                [(i32::MAX, String::new()), (i32::MAX, String::new()), (i32::MAX, String::new())],
                [(i32::MAX, String::new()), (i32::MAX, String::new()), (i32::MAX, String::new())],
            ],
            logs: Vec::new(),
        }
    }
}

impl User {
    /// The user's name.
    pub open spec fn name_of(&self) -> String {
        self.username
    }

    /// The file the profile is kept in.
    pub open spec fn path_of(&self) -> Seq<char> {
        self.path@
    }

    /// The user's profile.
    pub open spec fn profile_of(&self) -> Profile {
        self.profile
    }

    /// The user called `username`, whose profile is kept in
    /// `data/{username}`: the stored profile if there was one, else a fresh
    /// profile.
    pub fn new(username: String, stored: Option<Profile>) -> (u: User)
        ensures
            u.name_of() == username,
            u.path_of() == profile_path_of(username@),
            stored matches Some(p) ==> u.profile_of() == p,
            stored is None ==> is_fresh(u.profile_of()),
    {
        let path = profile_path(&username);
        let profile = match stored {
            Some(p) => p,
            None => Profile::fresh(),
        };
        User { username, path, profile }
    }

    /// The file the profile is kept in.
    pub fn path(&self) -> (p: &String)
        ensures
            p@ == self.path_of(),
    {
        &self.path
    }

    /// The user's profile.
    pub fn profile(&self) -> (p: &Profile)
        ensures
            *p == self.profile_of(),
    {
        &self.profile
    }

    /// The rows of the history table, oldest first: the entry's position
    /// counted from 1, then its six fields.
    pub fn log_rows(&self) -> (rows: Vec<[String; 7]>)
        ensures
            rows@.len() == self.profile_of().logs@.len(),
            forall|k: int| 0 <= k < rows@.len() ==> #[trigger] rows@[k][0]@ == digits((k + 1) as nat),
            forall|k: int, c: int|
                0 <= k < rows@.len() && 0 <= c < 6 ==> #[trigger] rows@[k][c + 1]@
                    == self.profile_of().logs@[k][c]@,
    {
        let logs = &self.profile.logs;
        let mut rows: Vec<[String; 7]> = Vec::new();
        let mut k: usize = 0;
        while k < logs.len()
            invariant
                logs == &self.profile.logs,
                k <= logs@.len(),
                rows@.len() == k,
                forall|m: int| 0 <= m < k ==> #[trigger] rows@[m][0]@ == digits((m + 1) as nat),
                forall|m: int, c: int|
                    0 <= m < k && 0 <= c < 6 ==> #[trigger] rows@[m][c + 1]@ == logs@[m][c]@,
            decreases logs@.len() - k,
        {
            let mut position = String::new();
            push_count(&mut position, (k as u64) + 1);
            let log = &logs[k];
            let row: [String; 7] = [
                position,
                log[0].clone(),
                log[1].clone(),
                log[2].clone(),
                log[3].clone(),
                log[4].clone(),
                log[5].clone(),
            ];
            rows.push(row);
            k = k + 1;
        }
        rows
    }

    /// Whether a record is set for difficulty `i + 1` and range column `j`.
    pub fn record_is_set(&self, i: usize, j: usize) -> (set: bool)
        requires
            i < 3,
            j < 3,
        ensures
            set == (self.profile_of().records[i as int][j as int].0 != i32::MAX),
    {
        self.profile.records[i][j].0 != i32::MAX
    }

    /// The row of the records table for difficulty `i + 1` and range column
    /// `j`: the range, then the best time and its date, or `无` twice while
    /// no record is set.
    pub fn record_cells(&self, i: usize, j: usize) -> (cells: [String; 3])
        requires
            i < 3,
            j < 3,
        ensures
            cells[0]@ == int_text(column_range(j as int)) + "以内"@,
            self.profile_of().records[i as int][j as int].0 != i32::MAX ==> {
                &&& cells[1]@ == duration_text(self.profile_of().records[i as int][j as int].0 as int)
                &&& cells[2]@ == self.profile_of().records[i as int][j as int].1@
            },
            self.profile_of().records[i as int][j as int].0 == i32::MAX ==> {
                &&& cells[1]@ == "无"@
                &&& cells[2]@ == "无"@
            },
    {
        let range: i32 = match j {
            0 => 20,
            1 => 50,
            _ => 100,
        };
        let mut range_text = String::new();
        push_int(&mut range_text, range as i64);
        push_str(&mut range_text, "以内");
        let record = &self.profile.records[i][j];
        if record.0 != i32::MAX {
            [range_text, duration_string(record.0), record.1.clone()]
        } else {
            [range_text, String::from_str("无"), String::from_str("无")]
        }
    }

    /// Writes a finished session into the profile: appends its history entry
    /// and, when the session sets a record, makes it the record of its
    /// difficulty and number range. `score` right answers out of the
    /// session's exercises, taken in `time` seconds and finished at `now`.
    /// Returns whether a record was set.
    pub fn finish_run(&mut self, this: &FormulaList, score: u32, time: i32, now: &String) -> (refreshed: bool)
        requires
            1 <= this.level <= 3,
            0 < this.list@.len() <= u32::MAX,
            score * 100 <= u32::MAX,
            time >= 0,
        ensures
            final(self).name_of() == old(self).name_of(),
            final(self).path_of() == old(self).path_of(),
            refreshed == sets_record(
                this.mode@,
                score as int,
                this.list@.len() as int,
                time as int,
                old(self).profile_of().records[this.level - 1][range_column_of(this.range as int)].0 as int,
            ),
            refreshed ==> this.mode@ == "测试"@ && score == this.list@.len() && time < old(
                self,
            ).profile_of().records[this.level - 1][range_column_of(this.range as int)].0,
            this.mode@ == "测试"@ && score == this.list@.len() && time < old(
                self,
            ).profile_of().records[this.level - 1][range_column_of(this.range as int)].0
                ==> refreshed,
            final(self).profile_of().logs@.len() == old(self).profile_of().logs@.len() + 1,
            final(self).profile_of().logs@.drop_last() == old(self).profile_of().logs@,
            log_entry_is(
                final(self).profile_of().logs@.last(),
                now@,
                this.level as int,
                this.mode@,
                (score * 100) / (this.list@.len() as int),
                time as int,
                this.range as int,
            ),
            forall|a: int, b: int|
                0 <= a < 3 && 0 <= b < 3 ==> #[trigger] final(self).profile_of().records[a][b] == if a
                    == this.level - 1 && b == range_column_of(this.range as int) {
                    record_after(
                        old(self).profile_of().records[a][b],
                        this.mode@,
                        score as int,
                        this.list@.len() as int,
                        time,
                        *now,
                    )
                } else {
                    old(self).profile_of().records[a][b]
                },
            forall|a: int, b: int|
                0 <= a < 3 && 0 <= b < 3 ==> #[trigger] final(self).profile_of().records[a][b].0
                    <= old(self).profile_of().records[a][b].0,
    {
        let total: u32 = this.list.len() as u32;
        let i: usize = (this.level - 1) as usize;
        let j: usize = range_column(this.range);
        let percent: u32 = score * 100 / total;

        let mut level_text = String::from_str("难度");
        push_int(&mut level_text, this.level as i64);
        let mut score_text = String::new();
        push_int(&mut score_text, percent as i64);
        push_str(&mut score_text, "分");
        let mut range_text = String::new();
        push_int(&mut range_text, this.range as i64);
        push_str(&mut range_text, "以内");
        let log: [String; 6] = [
            now.clone(),
            level_text,
            this.mode.clone(),
            score_text,
            duration_string(time),
            range_text,
        ];
        assert(log_entry_is(log, now@, this.level as int, this.mode@, percent as int, time as int, this.range as int));

        let test_mode = String::from_str(TEST_MODE);
        let refreshed = this.mode == test_mode && score == total && time < self.profile.records[i][j].0;
        if refreshed {
            self.profile.records[i][j] = (time, now.clone());
        }
        self.profile.logs.push(log);
        assert(self.profile.logs@.drop_last() =~= old(self).profile.logs@);
        refreshed
    }
}

/// The number range shown in a column of the records table.
pub open spec fn column_range(j: int) -> int {
    if j == 0 { 20 } else if j == 1 { 50 } else { 100 }
}

/// The heading of the records table of a difficulty: `"难度{level}"`.
pub open spec fn heading_text(level: int) -> Seq<char> {
    "难度"@ + int_text(level)
}

/// A table's heading names its difficulty: it is `难度` followed by the
/// difficulty's number, which reads back from the heading, so distinct
/// difficulties have distinct headings.
pub proof fn lemma_heading_names_level(level: i32)
    ensures
        heading_text(level as int).take(2) == "难度"@,
        parsed_i32(heading_text(level as int).skip(2)) == Some(level),
{
    reveal_strlit("难度");
    let h = heading_text(level as int);
    assert(h.take(2) =~= "难度"@);
    assert(h.skip(2) =~= int_text(level as int));
    lemma_i32_text_reads_back(level);
}

/// The heading of the records table of difficulty `level_idx + 1`.
pub fn record_heading(level_idx: usize) -> (s: String)
    requires
        level_idx < 3,
    ensures
        s@ == heading_text(level_idx + 1),
        s@ == "难度"@ + int_text(level_idx + 1),
{
    let mut s = String::from_str("难度");
    push_int(&mut s, (level_idx + 1) as i64);
    s
}

/// The file a user's profile is kept in.
pub open spec fn profile_path_of(username: Seq<char>) -> Seq<char> {
    "data/"@ + username
}

/// The file a user's profile is kept in: `data/{username}`.
pub fn profile_path(username: &String) -> (p: String)
    ensures
        p@ == profile_path_of(username@),
{
    let mut p = String::from_str("data/");
    p.append(username.as_str());
    p
}

/// The username among the program's arguments: the first one after the
/// program's name.
pub fn username_from_args(args: &Vec<String>) -> (r: Result<String, &'static str>)
    ensures
        args@.len() >= 2 ==> r == Ok::<String, &'static str>(args@[1]),
        args@.len() < 2 ==> (r matches Err(e) && e@ == NO_USERNAME@),
{
    if args.len() < 2 {
        Err(NO_USERNAME)
    } else {
        Ok(args[1].clone())
    }
}

} // verus!
