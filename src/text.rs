//! Character-level helpers for matching fixed patterns inside a line.
use vstd::prelude::*;
use vstd::string::*;

verus! {

/// The characters of `s`, in order, in a vector that can be indexed in constant time.
pub fn chars_of(s: &str) -> (r: Vec<char>)
    ensures
        r@ == s@,
{
    let mut v: Vec<char> = Vec::new();
    for c in it: s.chars()
        invariant
            v@ == it.seq().take(it.index() as int),
    {
        v.push(c);
    }
    assert(v@ =~= s@);
    v
}

/// `pat` occurs in `s` starting at position `k`.
pub open spec fn occurs_at(s: Seq<char>, k: int, pat: Seq<char>) -> bool {
    0 <= k && k + pat.len() <= s.len() && s.subrange(k, k + pat.len()) == pat
}

/// An ASCII decimal digit (`digits`) or an ASCII letter (`!digits`).
pub open spec fn in_class(c: char, digits: bool) -> bool {
    if digits {
        '0' <= c && c <= '9'
    } else {
        ('a' <= c && c <= 'z') || ('A' <= c && c <= 'Z')
    }
}

/// The first position at or after `i` where `pat` occurs, or -1.
pub open spec fn first_occurrence(s: Seq<char>, pat: Seq<char>, i: int) -> int
    decreases s.len() + 1 - i,
{
    if i < 0 || i > s.len() {
        -1
    } else if occurs_at(s, i, pat) {
        i
    } else {
        first_occurrence(s, pat, i + 1)
    }
}

/// `pat` occurs at `k`, immediately followed by a character of the class.
pub open spec fn report_at(s: Seq<char>, k: int, pat: Seq<char>, digits: bool) -> bool {
    occurs_at(s, k, pat) && k + pat.len() < s.len() && in_class(s[k + pat.len()], digits)
}

/// The last position in `[lo, hi)` where a report of `pat` starts, or -1.
pub open spec fn last_report(s: Seq<char>, pat: Seq<char>, digits: bool, lo: int, hi: int) -> int
    decreases hi - lo,
{
    if hi <= lo {
        -1
    } else if report_at(s, hi - 1, pat, digits) {
        hi - 1
    } else {
        last_report(s, pat, digits, lo, hi - 1)
    }
}

/// The end of the longest run of class characters starting at `i`.
pub open spec fn run_end(s: Seq<char>, i: int, digits: bool) -> int
    decreases s.len() - i,
{
    if 0 <= i < s.len() && in_class(s[i], digits) {
        run_end(s, i + 1, digits)
    } else {
        i
    }
}

pub proof fn lemma_run_end_bounds(s: Seq<char>, i: int, digits: bool)
    requires
        0 <= i <= s.len(),
    ensures
        i <= run_end(s, i, digits) <= s.len(),
    decreases s.len() - i,
{
    if 0 <= i < s.len() && in_class(s[i], digits) {
        lemma_run_end_bounds(s, i + 1, digits);
    }
}

pub fn is_in_class(c: char, digits: bool) -> (r: bool)
    ensures
        r == in_class(c, digits),
{
    if digits {
        '0' <= c && c <= '9'
    } else {
        ('a' <= c && c <= 'z') || ('A' <= c && c <= 'Z')
    }
}

/// Whether `pat` occurs in `s` at position `k`.
pub fn matches_at(s: &Vec<char>, k: usize, pat: &Vec<char>) -> (r: bool)
    ensures
        r == occurs_at(s@, k as int, pat@),
{
    if k > s.len() || pat.len() > s.len() - k {
        return false;
    }
    let mut i: usize = 0;
    while i < pat.len()
        invariant
            i <= pat.len(),
            k + pat.len() <= s.len(),
            forall|j: int| 0 <= j < i ==> s@[k + j] == pat@[j],
        decreases pat.len() - i,
    {
        if s[k + i] != pat[i] {
            assert(s@.subrange(k as int, k + pat.len())[i as int] != pat@[i as int]);
            return false;
        }
        i += 1;
    }
    assert(s@.subrange(k as int, k + pat.len()) =~= pat@);
    true
}

/// The first position at or after `from` where `pat` occurs.
pub fn find_first(s: &Vec<char>, pat: &Vec<char>, from: usize) -> (r: Option<usize>)
    requires
        from <= s.len(),
    ensures
        match r {
            Some(k) => first_occurrence(s@, pat@, from as int) == k as int,
            None => first_occurrence(s@, pat@, from as int) == -1,
        },
{
    let mut i: usize = from;
    while i < s.len()
        invariant
            from <= i <= s.len(),
            first_occurrence(s@, pat@, from as int) == first_occurrence(s@, pat@, i as int),
        decreases s.len() - i,
    {
        if matches_at(s, i, pat) {
            return Some(i);
        }
        i += 1;
    }
    if matches_at(s, i, pat) {
        Some(i)
    } else {
        assert(first_occurrence(s@, pat@, i + 1) == -1);
        None
    }
}

/// The last position in `[lo, s.len())` where `pat` occurs followed by a class character.
pub fn find_last_report(s: &Vec<char>, pat: &Vec<char>, digits: bool, lo: usize) -> (r: Option<usize>)
    ensures
        match r {
            Some(k) => last_report(s@, pat@, digits, lo as int, s@.len() as int) == k as int,
            None => last_report(s@, pat@, digits, lo as int, s@.len() as int) == -1,
        },
{
    let mut hi: usize = s.len();
    while hi > lo
        invariant
            hi <= s.len(),
            last_report(s@, pat@, digits, lo as int, s@.len() as int) == last_report(
                s@,
                pat@,
                digits,
                lo as int,
                hi as int,
            ),
        decreases hi,
    {
        let k = hi - 1;
        if matches_at(s, k, pat) && pat.len() < s.len() - k && is_in_class(s[k + pat.len()], digits) {
            return Some(k);
        }
        hi = k;
    }
    None
}

/// The end of the run of class characters that starts at `i`.
pub fn find_run_end(s: &Vec<char>, i: usize, digits: bool) -> (r: usize)
    requires
        i <= s.len(),
    ensures
        r as int == run_end(s@, i as int, digits),
        i <= r <= s.len(),
{
    proof {
        lemma_run_end_bounds(s@, i as int, digits);
    }
    let mut j: usize = i;
    while j < s.len() && is_in_class(s[j], digits)
        invariant
            i <= j <= s.len(),
            run_end(s@, i as int, digits) == run_end(s@, j as int, digits),
        decreases s.len() - j,
    {
        j += 1;
    }
    j
}

/// The characters `s[lo..hi]` as a string.
pub fn substring(s: &str, lo: usize, hi: usize) -> (r: String)
    requires
        lo <= hi <= s@.len(),
    ensures
        r@ == s@.subrange(lo as int, hi as int),
{
    String::from_str(s.substring_char(lo, hi))
}

} // verus!
