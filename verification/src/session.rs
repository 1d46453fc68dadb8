//! Grading a session and correcting its mistakes. The first pass takes one
//! reply per exercise without feedback; the correction pass keeps asking the
//! first wrongly answered exercise until it is answered right.

use crate::exercise::Formula;
use std::collections::VecDeque;
use vstd::prelude::*;

verus! {

/// The positions, in order, of the exercises among the first `n` whose reply
/// is not their answer.
pub open spec fn wrong_positions(list: Seq<Formula>, replies: Seq<i32>, n: int) -> Seq<usize>
    decreases n,
{
    if n <= 0 {
        Seq::empty()
    } else {
        let before = wrong_positions(list, replies, n - 1);
        if replies[n - 1] != list[n - 1].answer {
            before.push((n - 1) as usize)
        } else {
            before
        }
    }
}

/// The wrongly answered positions are exactly the exercises whose reply is
/// not their answer, each once and in increasing order.
pub proof fn lemma_wrong_positions_exact(list: Seq<Formula>, replies: Seq<i32>, n: int)
    requires
        0 <= n <= list.len(),
        n <= replies.len(),
        n <= usize::MAX + 1,
    ensures
        forall|i: int| 0 <= i < n ==> (wrong_positions(list, replies, n).contains(i as usize)
            <==> replies[i] != list[i].answer),
        forall|a: int, b: int|
            0 <= a < b < wrong_positions(list, replies, n).len() ==> wrong_positions(list, replies, n)[a]
                < wrong_positions(list, replies, n)[b],
        forall|a: int|
            0 <= a < wrong_positions(list, replies, n).len() ==> wrong_positions(list, replies, n)[a] < n,
        wrong_positions(list, replies, n).len() <= n,
    decreases n,
{
    if n > 0 {
        lemma_wrong_positions_exact(list, replies, n - 1);
        let before = wrong_positions(list, replies, n - 1);
        assert forall|i: int| 0 <= i < n implies (wrong_positions(list, replies, n).contains(i as usize)
            <==> replies[i] != list[i].answer) by {
            if i < n - 1 {
                if replies[n - 1] != list[n - 1].answer {
                    if wrong_positions(list, replies, n).contains(i as usize) {
                        let k = choose|k: int|
                            0 <= k < wrong_positions(list, replies, n).len()
                                && wrong_positions(list, replies, n)[k] == i as usize;
                        if k < before.len() {
                            assert(before[k] == i as usize);
                        }
                    }
                    if before.contains(i as usize) {
                        let k = choose|k: int| 0 <= k < before.len() && before[k] == i as usize;
                        assert(wrong_positions(list, replies, n)[k] == i as usize);
                    }
                }
            } else {
                if replies[n - 1] != list[n - 1].answer {
                    assert(wrong_positions(list, replies, n)[before.len() as int] == i as usize);
                } else {
                    if before.contains(i as usize) {
                        let k = choose|k: int| 0 <= k < before.len() && before[k] == i as usize;
                    }
                }
            }
        }
    }
}

/// Grades the first pass: `replies[i]` is the reply to exercise `i`.
/// Returns the number of right replies and the positions of the wrong ones,
/// in order.
pub fn grade(list: &VecDeque<Formula>, replies: &Vec<i32>) -> (r: (u32, VecDeque<usize>))
    requires
        replies@.len() == list@.len(),
        list@.len() <= u32::MAX,
    ensures
        r.1@ == wrong_positions(list@, replies@, list@.len() as int),
        r.0 + r.1@.len() == list@.len(),
{
    let n = list.len();
    let mut score: u32 = 0;
    let mut failed: VecDeque<usize> = VecDeque::new();
    let mut i: usize = 0;
    while i < n
        invariant
            n == list@.len(),
            n <= u32::MAX,
            replies@.len() == n,
            i <= n,
            failed@ == wrong_positions(list@, replies@, i as int),
            score + failed@.len() == i,
        decreases n - i,
    {
        proof {
            lemma_wrong_positions_exact(list@, replies@, i as int);
        }
        if replies[i] != list[i].answer {
            failed.push_back(i);
        } else {
            score = score + 1;
        }
        i = i + 1;
    }
    (score, failed)
}

/// One step of the correction pass: the reply to the first wrongly answered
/// exercise still in the queue. A right reply takes it off the queue; a wrong
/// one leaves the queue as it was, so the same exercise is asked again.
pub fn correct_front(list: &VecDeque<Formula>, failed: &mut VecDeque<usize>, reply: i32) -> (right: bool)
    requires
        old(failed)@.len() > 0,
        old(failed)@[0] < list@.len(),
    ensures
        right == (reply == list@[old(failed)@[0] as int].answer),
        right ==> final(failed)@ == old(failed)@.drop_first(),
        !right ==> final(failed)@ == old(failed)@,
{
    let front = failed.pop_front();
    match front {
        Some(idx) => {
            if list[idx].answer == reply {
                assert(failed@ =~= old(failed)@.drop_first());
                true
            } else {
                failed.push_front(idx);
                assert(failed@ =~= old(failed)@);
                false
            }
        },
        None => false,
    }
}

} // verus!
