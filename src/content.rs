//! The bounded content store: a rolling window of the most recent lines.
use vstd::prelude::*;

verus! {

/// The last `n` elements of `s`, or all of `s` when it is shorter.
pub open spec fn keep_last<T>(s: Seq<T>, n: nat) -> Seq<T> {
    if s.len() > n {
        s.subrange(s.len() - n, s.len() as int)
    } else {
        s
    }
}

/// The window after appending each of `lines` in turn, starting from `start`.
pub open spec fn append_each<T>(start: Seq<T>, lines: Seq<T>, n: nat) -> Seq<T>
    decreases lines.len(),
{
    if lines.len() == 0 {
        start
    } else {
        keep_last(append_each(start, lines.drop_last(), n).push(lines.last()), n)
    }
}

/// Pushes `line` onto the back of `items` and drops from the front until at
/// most `max` lines remain.
pub fn append_bounded(items: &mut Vec<String>, line: String, max: usize)
    ensures
        final(items)@ == keep_last(old(items)@.push(line), max as nat),
{
    items.push(line);
    if items.len() > max {
        let cut = items.len() - max;
        let tail = items.split_off(cut);
        *items = tail;
    }
}

/// For any capacity `n` and any lines appended one by one to a window that
/// holds at most `n` lines, the window holds at most `n` lines and equals the
/// last `min(n, total)` lines of everything it was given, in order.
pub proof fn lemma_window_keeps_latest<T>(start: Seq<T>, lines: Seq<T>, n: nat)
    requires
        start.len() <= n,
    ensures
        append_each(start, lines, n) == keep_last(start + lines, n),
        append_each(start, lines, n).len() <= n,
    decreases lines.len(),
{
    if lines.len() > 0 {
        lemma_window_keeps_latest(start, lines.drop_last(), n);
        let all = start + lines;
        let prev = start + lines.drop_last();
        assert(all =~= prev.push(lines.last()));
        assert(keep_last(keep_last(prev, n).push(lines.last()), n) =~= keep_last(
            prev.push(lines.last()),
            n,
        ));
    } else {
        assert(start + lines =~= start);
    }
}

/// The text of each line of a window.
pub open spec fn views(s: Seq<String>) -> Seq<Seq<char>> {
    s.map_values(|x: String| x@)
}

pub proof fn lemma_views_keep_last(a: Seq<String>, x: String, n: nat)
    ensures
        views(keep_last(a.push(x), n)) == keep_last(views(a).push(x@), n),
{
    assert(views(a.push(x)) =~= views(a).push(x@));
    assert(views(keep_last(a.push(x), n)) =~= keep_last(views(a).push(x@), n));
}

} // verus!
