//! Character-sequence primitives: substring occurrence and the shape of the
//! sensor data lines (a literal prefix, a run of numeric characters, a
//! literal suffix).

use vstd::prelude::*;
use vstd::string::StrSliceExecFns;

verus! {

/// The needle `n` occurs in `h` starting at position `i`.
pub open spec fn has_seq_at(h: Seq<char>, n: Seq<char>, i: int) -> bool {
    &&& 0 <= i
    &&& i + n.len() <= h.len()
    &&& forall|k: int| 0 <= k < n.len() ==> h[i + k] == n[k]
}

/// The needle `n` occurs somewhere in `h`.
pub open spec fn contains_seq(h: Seq<char>, n: Seq<char>) -> bool {
    exists|i: int| has_seq_at(h, n, i)
}

/// Does `pat` occur in `line` at position `i`?
pub fn has_at(line: &str, pat: &str, i: usize) -> (b: bool)
    requires
        i <= line@.len(),
    ensures
        b == has_seq_at(line@, pat@, i as int),
{
    let n = pat.unicode_len();
    let l = line.unicode_len();
    if n > l - i {
        return false;
    }
    let mut k: usize = 0;
    while k < n
        invariant
            0 <= k <= n,
            n == pat@.len(),
            l == line@.len(),
            i + n <= l,
            forall|j: int| 0 <= j < k ==> line@[i + j] == pat@[j],
        decreases n - k,
    {
        if line.get_char(i + k) != pat.get_char(k) {
            return false;
        }
        k = k + 1;
    }
    true
}

/// Does `pat` occur anywhere in `line`?
pub fn contains_pat(line: &str, pat: &str) -> (b: bool)
    ensures
        b == contains_seq(line@, pat@),
{
    let n = pat.unicode_len();
    if n == 0 {
        assert(has_seq_at(line@, pat@, 0));
        return true;
    }
    let l = line.unicode_len();
    let mut i: usize = 0;
    while i < l
        invariant
            0 <= i <= l,
            l == line@.len(),
            forall|j: int| 0 <= j < i ==> !has_seq_at(line@, pat@, j),
        decreases l - i,
    {
        if has_at(line, pat, i) {
            return true;
        }
        i = i + 1;
    }
    assert(forall|j: int| has_seq_at(line@, pat@, j) ==> 0 <= j < l);
    false
}

/// A decimal digit.
pub open spec fn is_digit_char(c: char) -> bool {
    c == '0' || c == '1' || c == '2' || c == '3' || c == '4' || c == '5' || c == '6' || c == '7'
        || c == '8' || c == '9'
}

/// A character that may appear in a captured numeric token: a digit or a dot.
pub open spec fn is_num_char(c: char) -> bool {
    is_digit_char(c) || c == '.'
}

/// Where the run of numeric characters that starts at `j` ends (exclusive).
pub open spec fn num_run_end(s: Seq<char>, j: int) -> int
    recommends
        0 <= j <= s.len(),
    decreases s.len() - j when 0 <= j <= s.len()
{
    if j < 0 || j >= s.len() || !is_num_char(s[j]) {
        j
    } else {
        num_run_end(s, j + 1)
    }
}

/// The run end lies between `j` and the end of `s`, everything inside the run
/// is numeric, and the run is maximal.
pub proof fn lemma_num_run_end(s: Seq<char>, j: int)
    requires
        0 <= j <= s.len(),
    ensures
        j <= num_run_end(s, j) <= s.len(),
        forall|k: int| j <= k < num_run_end(s, j) ==> is_num_char(s[k]),
        num_run_end(s, j) < s.len() ==> !is_num_char(s[num_run_end(s, j)]),
    decreases s.len() - j,
{
    if j < s.len() && is_num_char(s[j]) {
        lemma_num_run_end(s, j + 1);
    }
}

/// Pins the run end down: if everything from `j` up to `q` is numeric and
/// `q` is the end of `s` or a non-numeric character, the run ends at `q`.
pub proof fn lemma_num_run_end_is(s: Seq<char>, j: int, q: int)
    requires
        0 <= j <= q <= s.len(),
        forall|k: int| j <= k < q ==> is_num_char(#[trigger] s[k]),
        q < s.len() ==> !is_num_char(s[q]),
    ensures
        num_run_end(s, j) == q,
    decreases q - j,
{
    if j < q {
        lemma_num_run_end_is(s, j + 1, q);
    }
}

/// A field pattern (literal prefix, then one or more numeric characters, then
/// a literal suffix) matches `line` at position `i`.
///
/// The suffixes in use all begin with a space, which is not a numeric
/// character, so the captured token is always the whole maximal numeric run
/// after the prefix.
pub open spec fn pat_match_at(line: Seq<char>, pre: Seq<char>, suf: Seq<char>, i: int) -> bool {
    let start = i + pre.len();
    let end = num_run_end(line, start);
    &&& has_seq_at(line, pre, i)
    &&& end > start
    &&& has_seq_at(line, suf, end)
}

/// The first position at or after `i` where the field pattern matches.
pub open spec fn first_pat_match_from(
    line: Seq<char>,
    pre: Seq<char>,
    suf: Seq<char>,
    i: int,
) -> Option<int>
    decreases line.len() - i when 0 <= i <= line.len()
{
    if i < 0 || i >= line.len() {
        None
    } else if pat_match_at(line, pre, suf, i) {
        Some(i)
    } else {
        first_pat_match_from(line, pre, suf, i + 1)
    }
}

/// The first position where the field pattern matches, if any.
pub open spec fn first_pat_match(line: Seq<char>, pre: Seq<char>, suf: Seq<char>) -> Option<int> {
    first_pat_match_from(line, pre, suf, 0)
}

/// The numeric token captured by the field pattern: the maximal numeric run
/// after the prefix of the leftmost match.
pub open spec fn pat_capture(line: Seq<char>, pre: Seq<char>, suf: Seq<char>) -> Option<
    Seq<char>,
> {
    match first_pat_match(line, pre, suf) {
        Some(i) => Some(line.subrange(i + pre.len(), num_run_end(line, i + pre.len()))),
        None => None,
    }
}

/// A field pattern whose prefix occurs nowhere in `line` matches nowhere.
pub proof fn lemma_no_prefix_no_pat_match(line: Seq<char>, pre: Seq<char>, suf: Seq<char>)
    requires
        forall|i: int| !has_seq_at(line, pre, i),
    ensures
        first_pat_match(line, pre, suf) is None,
{
    lemma_no_prefix_no_pat_match_from(line, pre, suf, 0);
}

proof fn lemma_no_prefix_no_pat_match_from(line: Seq<char>, pre: Seq<char>, suf: Seq<char>, i: int)
    requires
        0 <= i <= line.len(),
        forall|j: int| !has_seq_at(line, pre, j),
    ensures
        first_pat_match_from(line, pre, suf, i) is None,
    decreases line.len() - i,
{
    if i < line.len() {
        assert(!has_seq_at(line, pre, i));
        lemma_no_prefix_no_pat_match_from(line, pre, suf, i + 1);
    }
}

/// If every occurrence in `line` of the needle's character at `pos` lies
/// too close to the end for the needle to fit behind it, the needle occurs
/// nowhere in `line`.
pub proof fn lemma_pinned_char_no_occurrence(line: Seq<char>, needle: Seq<char>, pos: int)
    requires
        0 <= pos < needle.len(),
        forall|j: int|
            0 <= j < line.len() && line[j] == needle[pos] ==> j + needle.len() - pos
                > line.len(),
    ensures
        forall|i: int| !has_seq_at(line, needle, i),
        !contains_seq(line, needle),
{
    assert forall|i: int| !has_seq_at(line, needle, i) by {
        if has_seq_at(line, needle, i) {
            assert(line[i + pos] == needle[pos]);
        }
    }
}

/// The matcher for one field pattern: returns the bounds of the captured
/// numeric token of the leftmost match.
pub fn find_capture(line: &str, pre: &str, suf: &str) -> (r: Option<(usize, usize)>)
    ensures
        match r {
            Some((a, b)) => {
                &&& pre@.len() <= a
                &&& first_pat_match(line@, pre@, suf@) == Some(a - pre@.len())
                &&& b == num_run_end(line@, a as int)
                &&& a <= b <= line@.len()
                &&& pat_capture(line@, pre@, suf@) == Some(line@.subrange(a as int, b as int))
            },
            None => first_pat_match(line@, pre@, suf@) is None,
        },
{
    let l = line.unicode_len();
    let mut i: usize = 0;
    while i < l
        invariant
            0 <= i <= l,
            l == line@.len(),
            first_pat_match_from(line@, pre@, suf@, 0) == first_pat_match_from(
                line@,
                pre@,
                suf@,
                i as int,
            ),
        decreases l - i,
    {
        if match_at(line, pre, suf, i) {
            let a = i + pre.unicode_len();
            let b = run_end_exec(line, a);
            return Some((a, b));
        }
        i = i + 1;
    }
    None
}

/// Does the field pattern match at position `i`?
fn match_at(line: &str, pre: &str, suf: &str, i: usize) -> (b: bool)
    requires
        i <= line@.len(),
    ensures
        b == pat_match_at(line@, pre@, suf@, i as int),
{
    proof {
        lemma_num_run_end(line@, i as int);
    }
    if !has_at(line, pre, i) {
        return false;
    }
    let n = pre.unicode_len();
    let l = line.unicode_len();
    assert(i + n <= l);
    let start = i + n;
    let end = run_end_exec(line, start);
    if end == start {
        return false;
    }
    has_at(line, suf, end)
}

/// The end of the numeric run that starts at `j`.
fn run_end_exec(line: &str, j: usize) -> (e: usize)
    requires
        j <= line@.len(),
    ensures
        e == num_run_end(line@, j as int),
        j <= e <= line@.len(),
{
    let l = line.unicode_len();
    let mut k: usize = j;
    while k < l && is_num_char_exec(line.get_char(k))
        invariant
            j <= k <= l,
            l == line@.len(),
            num_run_end(line@, j as int) == num_run_end(line@, k as int),
            forall|m: int| j <= m < k ==> is_num_char(line@[m]),
        decreases l - k,
    {
        k = k + 1;
    }
    k
}

/// Is `c` a digit or a dot?
fn is_num_char_exec(c: char) -> (b: bool)
    ensures
        b == is_num_char(c),
{
    c == '0' || c == '1' || c == '2' || c == '3' || c == '4' || c == '5' || c == '6' || c == '7'
        || c == '8' || c == '9' || c == '.'
}

} // verus!
