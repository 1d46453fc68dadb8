//! Reading numbers out of what the user typed: surrounding white space is
//! dropped as `str::trim` drops it, and the rest is read as Rust's integer
//! parsing (`str::parse`) reads a decimal number.

use crate::text::{digit_char, digits, int_text};
use vstd::prelude::*;

verus! {

/// Unicode's `White_Space` characters, which `char::is_whitespace` accepts.
pub open spec fn is_white(c: char) -> bool {
    let u = c as u32;
    ||| 0x9 <= u <= 0xd
    ||| u == 0x20
    ||| u == 0x85
    ||| u == 0xa0
    ||| u == 0x1680
    ||| 0x2000 <= u <= 0x200a
    ||| u == 0x2028
    ||| u == 0x2029
    ||| u == 0x202f
    ||| u == 0x205f
    ||| u == 0x3000
}

/// `s` without its leading white space.
pub open spec fn trim_start(s: Seq<char>) -> Seq<char>
    decreases s.len(),
{
    if s.len() > 0 && is_white(s[0]) {
        trim_start(s.drop_first())
    } else {
        s
    }
}

/// `s` without its trailing white space.
pub open spec fn trim_end(s: Seq<char>) -> Seq<char>
    decreases s.len(),
{
    if s.len() > 0 && is_white(s.last()) {
        trim_end(s.drop_last())
    } else {
        s
    }
}

/// `s` without leading and trailing white space.
pub open spec fn trimmed(s: Seq<char>) -> Seq<char> {
    trim_end(trim_start(s))
}

pub open spec fn is_digit(c: char) -> bool {
    0x30 <= (c as u32) <= 0x39
}

pub open spec fn all_digits(s: Seq<char>) -> bool {
    forall|i: int| 0 <= i < s.len() ==> is_digit(#[trigger] s[i])
}

/// The value of a string of decimal digits.
pub open spec fn digits_value(s: Seq<char>) -> int
    decreases s.len(),
{
    if s.len() == 0 {
        0
    } else {
        digits_value(s.drop_last()) * 10 + ((s.last() as u32) - 0x30)
    }
}

/// The number that integer parsing reads from `s`, before the range of the
/// target type is checked: an optional sign (a minus only where `signed`),
/// then one or more decimal digits and nothing else.
pub open spec fn number_value(s: Seq<char>, signed: bool) -> Option<int> {
    if s.len() > 0 && (s[0] == '+' || (signed && s[0] == '-')) {
        let body = s.drop_first();
        if body.len() > 0 && all_digits(body) {
            Some(if s[0] == '-' { -digits_value(body) } else { digits_value(body) })
        } else {
            None
        }
    } else if s.len() > 0 && all_digits(s) {
        Some(digits_value(s))
    } else {
        None
    }
}

/// What `s.parse::<i32>()` gives, as an `Option`.
pub open spec fn parsed_i32(s: Seq<char>) -> Option<i32> {
    match number_value(s, true) {
        Some(v) => if i32::MIN <= v <= i32::MAX { Some(v as i32) } else { None },
        None => None,
    }
}

/// What `s.parse::<u32>()` gives, as an `Option`.
pub open spec fn parsed_u32(s: Seq<char>) -> Option<u32> {
    match number_value(s, false) {
        Some(v) => if 0 <= v <= u32::MAX { Some(v as u32) } else { None },
        None => None,
    }
}

/// The value past which digits are no longer accumulated exactly.
pub open spec fn capped(v: int) -> int {
    if v < 0x2_0000_0000 { v } else { 0x2_0000_0000 }
}

proof fn lemma_digits_value_nonneg(s: Seq<char>)
    requires
        all_digits(s),
    ensures
        digits_value(s) >= 0,
    decreases s.len(),
{
    if s.len() > 0 {
        assert(is_digit(s[s.len() - 1]));
        assert(all_digits(s.drop_last())) by {
            assert forall|i: int| 0 <= i < s.drop_last().len() implies is_digit(#[trigger] s.drop_last()[i]) by {
                assert(is_digit(s[i]));
            }
        }
        lemma_digits_value_nonneg(s.drop_last());
    }
}

proof fn lemma_trim_start_skip(s: Seq<char>, i: int)
    requires
        0 <= i <= s.len(),
        forall|k: int| 0 <= k < i ==> is_white(#[trigger] s[k]),
    ensures
        trim_start(s) == trim_start(s.subrange(i, s.len() as int)),
    decreases i,
{
    if i > 0 {
        assert(s.drop_first().subrange(i - 1, s.drop_first().len() as int) =~= s.subrange(i, s.len() as int));
        assert forall|k: int| 0 <= k < i - 1 implies is_white(#[trigger] s.drop_first()[k]) by {
            assert(is_white(s[k + 1]));
        }
        assert(is_white(s[0]));
        lemma_trim_start_skip(s.drop_first(), i - 1);
    } else {
        assert(s.subrange(0, s.len() as int) =~= s);
    }
}

proof fn lemma_trim_end_cut(s: Seq<char>, j: int)
    requires
        0 <= j <= s.len(),
        forall|k: int| j <= k < s.len() ==> is_white(#[trigger] s[k]),
    ensures
        trim_end(s) == trim_end(s.subrange(0, j)),
    decreases s.len() - j,
{
    if j < s.len() {
        assert(is_white(s[s.len() - 1]));
        assert(s.drop_last().subrange(0, j) =~= s.subrange(0, j));
        assert forall|k: int| j <= k < s.drop_last().len() implies is_white(#[trigger] s.drop_last()[k]) by {
            assert(is_white(s[k]));
        }
        lemma_trim_end_cut(s.drop_last(), j);
    } else {
        assert(s.subrange(0, j) =~= s);
    }
}

proof fn lemma_digits_read_back(n: nat)
    ensures
        digits(n).len() > 0,
        all_digits(digits(n)),
        digits_value(digits(n)) == n,
    decreases n,
{
    let d = digit_char((n % 10) as int);
    assert(is_digit(d) && (d as u32) - 0x30 == n % 10);
    if n < 10 {
        let s = seq![d];
        assert(digits(n) == s);
        assert(s.drop_last() =~= Seq::<char>::empty());
        assert(digits_value(s.drop_last()) == 0);
        assert(all_digits(s));
    } else {
        lemma_digits_read_back(n / 10);
        let p = digits(n / 10);
        let s = p.push(d);
        assert(digits(n) == s);
        assert(s.drop_last() =~= p);
        assert(s.last() == d);
        assert(digits_value(s) == digits_value(p) * 10 + ((d as u32) - 0x30));
        assert((n / 10) * 10 + n % 10 == n);
        assert(all_digits(s)) by {
            assert forall|i: int| 0 <= i < s.len() implies is_digit(#[trigger] s[i]) by {
                if i < p.len() {
                    assert(is_digit(p[i]));
                }
            }
        }
    }
}

/// Reading a number back from its decimal text gives the number: for every
/// `i32` value `v`, parsing the text `v.to_string()` gives `v`. A string of
/// digits is read with its first digit the most significant.
pub proof fn lemma_i32_text_reads_back(v: i32)
    ensures
        parsed_i32(int_text(v as int)) == Some(v),
{
    if v >= 0 {
        lemma_digits_read_back(v as nat);
        let s = digits(v as nat);
        assert(is_digit(s[0]));
    } else {
        lemma_digits_read_back((-v) as nat);
        let s = int_text(v as int);
        assert(s.drop_first() =~= digits((-v) as nat));
    }
}

/// Reading a `u32` back from its decimal digits gives the number.
pub proof fn lemma_u32_text_reads_back(n: u32)
    ensures
        parsed_u32(digits(n as nat)) == Some(n),
{
    lemma_digits_read_back(n as nat);
    let s = digits(n as nat);
    assert(is_digit(s[0]));
}

/// A reply typed as a number and ended with the Enter key reads back as that
/// number.
pub proof fn lemma_typed_reply_reads_back(v: i32)
    ensures
        parsed_i32(trimmed(int_text(v as int) + seq!['\n'])) == Some(v),
{
    let t = int_text(v as int);
    let line = t + seq!['\n'];
    if v >= 0 {
        lemma_digits_read_back(v as nat);
    } else {
        lemma_digits_read_back((-v) as nat);
        assert(t.drop_first() =~= digits((-v) as nat));
        assert(t.drop_first()[t.len() - 2] == t[t.len() - 1]);
        assert(is_digit(t.drop_first()[0]));
    }
    assert(t.len() > 0);
    assert(is_digit(t[t.len() - 1])) by {
        if v >= 0 {
            assert(is_digit(t[t.len() - 1]));
        } else {
            assert(is_digit(t.drop_first()[t.len() - 2]));
        }
    }
    assert(!is_white(line[0]));
    assert(trim_start(line) == line);
    assert(is_white(line.last()));
    assert(line.drop_last() =~= t);
    assert(!is_white(t.last()));
    assert(trim_end(t) == t);
    assert(trim_end(line) == t);
    lemma_i32_text_reads_back(v);
}

/// Whether `c` is white space, as `char::is_whitespace` says.
pub fn is_whitespace(c: char) -> (w: bool)
    ensures
        w == is_white(c),
{
    let u: u32 = c as u32;
    (0x9 <= u && u <= 0xd) || u == 0x20 || u == 0x85 || u == 0xa0 || u == 0x1680 || (0x2000 <= u
        && u <= 0x200a) || u == 0x2028 || u == 0x2029 || u == 0x202f || u == 0x205f || u == 0x3000
}

/// `s` without leading and trailing white space, as `s.trim().to_string()`.
pub fn trim(s: &str) -> (t: String)
    ensures
        t@ == trimmed(s@),
{
    let n = s.unicode_len();
    let mut i: usize = 0;
    while i < n && is_whitespace(s.get_char(i))
        invariant
            n == s@.len(),
            i <= n,
            forall|k: int| 0 <= k < i ==> is_white(#[trigger] s@[k]),
        decreases n - i,
    {
        i = i + 1;
    }
    let ghost rest = s@.subrange(i as int, n as int);
    proof {
        lemma_trim_start_skip(s@, i as int);
        if i < n {
            assert(rest[0] == s@[i as int]);
            assert(!is_white(rest[0]));
        }
        assert(trim_start(s@) == rest);
    }
    let mut j: usize = n;
    while j > i && is_whitespace(s.get_char(j - 1))
        invariant
            n == s@.len(),
            i <= j <= n,
            rest == s@.subrange(i as int, n as int),
            forall|k: int| j <= k < n ==> is_white(#[trigger] s@[k]),
        decreases j,
    {
        j = j - 1;
    }
    proof {
        assert forall|k: int| j - i <= k < rest.len() implies is_white(#[trigger] rest[k]) by {
            assert(rest[k] == s@[k + i]);
        }
        lemma_trim_end_cut(rest, j - i);
        let kept = rest.subrange(0, j - i);
        assert(kept =~= s@.subrange(i as int, j as int));
        if j > i {
            assert(kept.last() == s@[j - 1]);
        }
        assert(trim_end(kept) == kept);
    }
    String::from_str(s.substring_char(i, j))
}

/// Reads the decimal digits of `s` from position `start` on. `None` unless
/// there is at least one character there and every one is a digit;
/// otherwise their value, capped at 2^33.
fn digits_from(s: &str, start: usize) -> (r: Option<u64>)
    requires
        start <= s@.len(),
    ensures
        ({
            let body = s@.subrange(start as int, s@.len() as int);
            match r {
                Some(v) => body.len() > 0 && all_digits(body) && v == capped(digits_value(body)),
                None => !(body.len() > 0 && all_digits(body)),
            }
        }),
{
    let n = s.unicode_len();
    if start >= n {
        return None;
    }
    let ghost body = s@.subrange(start as int, n as int);
    let mut acc: u64 = 0;
    let mut k: usize = start;
    while k < n
        invariant
            n == s@.len(),
            start < n,
            start <= k <= n,
            body == s@.subrange(start as int, n as int),
            all_digits(body.subrange(0, k - start)),
            acc == capped(digits_value(body.subrange(0, k - start))),
        decreases n - k,
    {
        let c = s.get_char(k);
        let u: u32 = c as u32;
        if u < 0x30 || u > 0x39 {
            assert(body[k - start] == c);
            assert(!all_digits(body));
            return None;
        }
        let ghost prefix = body.subrange(0, k - start);
        let ghost next = body.subrange(0, k - start + 1);
        proof {
            assert(next.drop_last() =~= prefix);
            assert(next.last() == c);
            assert(all_digits(next)) by {
                assert forall|m: int| 0 <= m < next.len() implies is_digit(#[trigger] next[m]) by {
                    if m < prefix.len() {
                        assert(next[m] == prefix[m]);
                    }
                }
            }
            lemma_digits_value_nonneg(prefix);
        }
        let d: u64 = (u - 0x30) as u64;
        acc = if acc * 10 + d < 0x2_0000_0000 { acc * 10 + d } else { 0x2_0000_0000 };
        k = k + 1;
    }
    assert(body.subrange(0, n - start) =~= body);
    Some(acc)
}

/// What `s.parse::<i32>()` gives: `Some` of the number when `s` is an
/// optional sign and one or more decimal digits whose value is an `i32`.
pub fn parse_i32(s: &str) -> (r: Option<i32>)
    ensures
        r == parsed_i32(s@),
{
    let n = s.unicode_len();
    if n == 0 {
        return None;
    }
    let first = s.get_char(0);
    let negative = first == '-';
    let start: usize = if first == '+' || first == '-' { 1 } else { 0 };
    proof {
        assert(s@.subrange(1, n as int) =~= s@.drop_first());
        assert(s@.subrange(0, n as int) =~= s@);
    }
    match digits_from(s, start) {
        None => None,
        Some(v) => {
            proof {
                lemma_digits_value_nonneg(s@.subrange(start as int, n as int));
            }
            if negative {
                if v <= 0x8000_0000 {
                    Some((0 - (v as i64)) as i32)
                } else {
                    None
                }
            } else {
                if v <= 0x7fff_ffff {
                    Some(v as i32)
                } else {
                    None
                }
            }
        },
    }
}

/// What `s.parse::<u32>()` gives: `Some` of the number when `s` is an
/// optional plus sign and one or more decimal digits whose value is a `u32`.
pub fn parse_u32(s: &str) -> (r: Option<u32>)
    ensures
        r == parsed_u32(s@),
{
    let n = s.unicode_len();
    if n == 0 {
        return None;
    }
    let first = s.get_char(0);
    let start: usize = if first == '+' { 1 } else { 0 };
    proof {
        assert(s@.subrange(1, n as int) =~= s@.drop_first());
        assert(s@.subrange(0, n as int) =~= s@);
    }
    match digits_from(s, start) {
        None => None,
        Some(v) => {
            proof {
                lemma_digits_value_nonneg(s@.subrange(start as int, n as int));
            }
            if v <= 0xffff_ffff {
                Some(v as u32)
            } else {
                None
            }
        },
    }
}

/// The reply typed to an exercise: the number in the line once white space
/// around it is dropped, or `None` while it is not a number.
pub fn reply_of(line: &str) -> (r: Option<i32>)
    ensures
        r == parsed_i32(trimmed(line@)),
{
    let t = trim(line);
    parse_i32(t.as_str())
}

} // verus!
