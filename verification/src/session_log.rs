//! A session over two-operand exercises kept as numbers, with a plain-text
//! log: the session's date, score and time, then the exercises answered
//! wrongly.

use crate::text::{digits, push_count, push_str};
use crate::util::formula::{answer_value, answerable, formula_text, Formula};
use std::collections::VecDeque;
use vstd::prelude::*;

verus! {

/// The positions, in order, of the exercises among the first `n` whose reply
/// is not their answer.
pub open spec fn missed_positions(list: Seq<Formula>, replies: Seq<u32>, n: int) -> Seq<usize>
    decreases n,
{
    if n <= 0 {
        Seq::empty()
    } else {
        let before = missed_positions(list, replies, n - 1);
        if replies[n - 1] != answer_value(list[n - 1]) {
            before.push((n - 1) as usize)
        } else {
            before
        }
    }
}

/// The missed positions are exactly the exercises whose reply is not their
/// answer, each once and in increasing order.
pub proof fn lemma_missed_positions_exact(list: Seq<Formula>, replies: Seq<u32>, n: int)
    requires
        0 <= n <= list.len(),
        n <= replies.len(),
        n <= usize::MAX + 1,
    ensures
        forall|i: int| 0 <= i < n ==> (missed_positions(list, replies, n).contains(i as usize)
            <==> replies[i] != answer_value(list[i])),
        forall|a: int, b: int|
            0 <= a < b < missed_positions(list, replies, n).len() ==> missed_positions(list, replies, n)[a]
                < missed_positions(list, replies, n)[b],
        forall|a: int|
            0 <= a < missed_positions(list, replies, n).len() ==> missed_positions(list, replies, n)[a] < n,
    decreases n,
{
    if n > 0 {
        lemma_missed_positions_exact(list, replies, n - 1);
        let before = missed_positions(list, replies, n - 1);
        let now = missed_positions(list, replies, n);
        assert forall|i: int| 0 <= i < n implies (now.contains(i as usize) <==> replies[i]
            != answer_value(list[i])) by {
            if now.contains(i as usize) {
                let k = choose|k: int| 0 <= k < now.len() && now[k] == i as usize;
                if k < before.len() {
                    assert(before[k] == i as usize);
                }
            }
            if i < n - 1 {
                if before.contains(i as usize) {
                    let k = choose|k: int| 0 <= k < before.len() && before[k] == i as usize;
                    assert(now[k] == i as usize);
                }
            } else if replies[n - 1] != answer_value(list[n - 1]) {
                assert(now[before.len() as int] == i as usize);
            }
        }
    }
}

/// The summary written after the first pass:
/// `"\n{now}\n你的得分: {percent}分\n你的用时: {m}分{s}秒\n"`.
pub open spec fn summary_text(now: Seq<char>, percent: int, time: int) -> Seq<char> {
    "\n"@ + now + "\n你的得分: "@ + digits(percent as nat) + "分\n你的用时: "@ + digits((time / 60) as nat)
        + "分"@ + digits((time % 60) as nat) + "秒\n"@
}

/// The lines of the wrongly answered exercises, each followed by a newline.
pub open spec fn missed_lines(list: Seq<Formula>, failed: Seq<usize>) -> Seq<char>
    decreases failed.len(),
{
    if failed.len() == 0 {
        Seq::empty()
    } else {
        missed_lines(list, failed.drop_last()) + formula_text(list[failed.last() as int]) + "\n"@
    }
}

/// Grades the first pass: `replies[i]` is the reply to exercise `i`.
/// Returns the number of right replies and the positions of the wrong ones.
pub fn tally(list: &VecDeque<Formula>, replies: &Vec<u32>) -> (r: (u32, VecDeque<usize>))
    requires
        replies@.len() == list@.len(),
        list@.len() <= u32::MAX,
        forall|i: int| 0 <= i < list@.len() ==> answerable(#[trigger] list@[i]),
    ensures
        r.1@ == missed_positions(list@, replies@, list@.len() as int),
        r.0 + r.1@.len() == list@.len(),
{
    let n = list.len();
    let mut score: u32 = 0;
    let mut failed: VecDeque<usize> = VecDeque::new();
    let mut i: usize = 0;
    while i < n
        invariant
            n == list@.len(),
            n <= u32::MAX,
            replies@.len() == n,
            forall|k: int| 0 <= k < n ==> answerable(#[trigger] list@[k]),
            i <= n,
            failed@ == missed_positions(list@, replies@, i as int),
            score + failed@.len() == i,
        decreases n - i,
    {
        assert(answerable(list@[i as int]));
        if replies[i] != list[i].get_answer() {
            failed.push_back(i);
        } else {
            score = score + 1;
        }
        i = i + 1;
    }
    (score, failed)
}

/// One step of the correction pass: a right reply to the first wrongly
/// answered exercise takes it off the queue; a wrong one leaves the queue as
/// it was.
pub fn retry_first(list: &VecDeque<Formula>, failed: &mut VecDeque<usize>, reply: u32) -> (right: bool)
    requires
        old(failed)@.len() > 0,
        old(failed)@[0] < list@.len(),
        answerable(list@[old(failed)@[0] as int]),
    ensures
        right == (reply == answer_value(list@[old(failed)@[0] as int])),
        right ==> final(failed)@ == old(failed)@.drop_first(),
        !right ==> final(failed)@ == old(failed)@,
{
    match failed.pop_front() {
        Some(idx) => {
            if list[idx].get_answer() == reply {
                assert(failed@ =~= old(failed)@.drop_first());
                true
            } else {
                failed.push_front(idx);
                assert(failed@ =~= old(failed)@);
                false
            }
        },
        None => false,
    }
}

/// The summary of a session with `score` right replies out of `total`,
/// taken in `time` seconds and finished at `now`.
pub fn summary(now: &str, score: u32, total: u32, time: u32) -> (s: String)
    requires
        total > 0,
        score * 100 <= u32::MAX,
    ensures
        s@ == summary_text(now@, (score * 100) / (total as int), time as int),
{
    let mut s = String::from_str("\n");
    push_str(&mut s, now);
    push_str(&mut s, "\n你的得分: ");
    push_count(&mut s, (score * 100 / total) as u64);
    push_str(&mut s, "分\n你的用时: ");
    push_count(&mut s, (time / 60) as u64);
    push_str(&mut s, "分");
    push_count(&mut s, (time % 60) as u64);
    push_str(&mut s, "秒\n");
    assert(s@ =~= summary_text(now@, (score * 100) / (total as int), time as int));
    s
}

/// The log of the wrongly answered exercises: `"错题: {count}\n"`, then the
/// text of each on a line of its own.
pub fn mistakes(list: &VecDeque<Formula>, failed: &VecDeque<usize>) -> (s: String)
    requires
        forall|k: int| 0 <= k < failed@.len() ==> #[trigger] failed@[k] < list@.len(),
    ensures
        s@ == "错题: "@ + digits(failed@.len() as nat) + "\n"@ + missed_lines(list@, failed@),
{
    let mut s = String::from_str("错题: ");
    push_count(&mut s, failed.len() as u64);
    push_str(&mut s, "\n");
    let ghost head = s@;
    let mut k: usize = 0;
    while k < failed.len()
        invariant
            forall|m: int| 0 <= m < failed@.len() ==> #[trigger] failed@[m] < list@.len(),
            k <= failed@.len(),
            s@ == head + missed_lines(list@, failed@.subrange(0, k as int)),
        decreases failed@.len() - k,
    {
        let idx = failed[k];
        assert(failed@[k as int] < list@.len());
        let line = list[idx].get_formula();
        push_str(&mut s, line.as_str());
        push_str(&mut s, "\n");
        proof {
            let next = failed@.subrange(0, k + 1);
            assert(next.drop_last() =~= failed@.subrange(0, k as int));
            assert(s@ =~= head + missed_lines(list@, next));
        }
        k = k + 1;
    }
    assert(failed@.subrange(0, failed@.len() as int) =~= failed@);
    s
}

} // verus!
