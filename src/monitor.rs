//! The log monitor: one file's bounded content window and metrics engine.
use vstd::prelude::*;
use vstd::string::*;
use crate::content::{append_bounded, keep_last, views, lemma_views_keep_last};
use crate::metrics::VaultMetrics;

verus! {

/// Hands out monitor indices, each once, in increasing order.
pub struct MonitorIds {
    pub next: usize,
}

impl MonitorIds {
    pub fn new() -> (r: MonitorIds)
        ensures
            r.next == 0,
    {
        MonitorIds { next: 0 }
    }

    /// The next index; every later one is larger.
    pub fn allocate(&mut self) -> (r: usize)
        requires
            old(self).next < usize::MAX,
        ensures
            r == old(self).next,
            final(self).next == r + 1,
    {
        let r = self.next;
        self.next = r + 1;
        r
    }
}

/// The monitor of one file.
pub struct LogMonitor {
    /// Unique among the monitors made from one `MonitorIds`.
    pub index: usize,
    /// The most recent lines, at most `max_content` of them.
    pub content: Vec<String>,
    /// The selected line of `content`, for navigation.
    pub selected: Option<usize>,
    /// The file's path.
    pub logfile: String,
    pub metrics: VaultMetrics,
    pub max_content: usize,
}

impl LogMonitor {
    /// The text of each line in the window.
    pub open spec fn content_view(&self) -> Seq<Seq<char>> {
        views(self.content@)
    }

    /// A monitor of file `f` that keeps the last `max_lines` lines, with the
    /// next index of `ids`.
    pub fn new(f: String, max_lines: usize, ids: &mut MonitorIds) -> (r: LogMonitor)
        requires
            old(ids).next < usize::MAX,
        ensures
            r.index == old(ids).next,
            final(ids).next == old(ids).next + 1,
            r.logfile == f,
            r.max_content == max_lines,
            r.content@.len() == 0,
            r.selected is None,
            r.metrics.is_fresh(),
    {
        let index = ids.allocate();
        LogMonitor {
            index,
            content: Vec::new(),
            selected: None,
            logfile: f,
            metrics: VaultMetrics::new(),
            max_content: max_lines,
        }
    }

    /// Appends a line to the window, dropping the oldest beyond capacity.
    pub fn append_to_content(&mut self, text: &str)
        ensures
            final(self).content_view() == keep_last(
                old(self).content_view().push(text@),
                old(self).max_content as nat,
            ),
            final(self).index == old(self).index,
            final(self).logfile == old(self).logfile,
            final(self).max_content == old(self).max_content,
            final(self).selected == old(self).selected,
            final(self).metrics == old(self).metrics,
    {
        let line = String::from_str(text);
        proof {
            lemma_views_keep_last(self.content@, line, self.max_content as nat);
        }
        append_bounded(&mut self.content, line, self.max_content);
    }

    /// Reads a line of the file: through the metrics engine, then into the
    /// window. Returns the engine's annotation of the line.
    pub fn process_line(&mut self, line: &str) -> (r: String)
        ensures
            final(self).content_view() == keep_last(
                old(self).content_view().push(line@),
                old(self).max_content as nat,
            ),
            final(self).index == old(self).index,
            final(self).logfile == old(self).logfile,
            final(self).max_content == old(self).max_content,
            final(self).selected == old(self).selected,
            VaultMetrics::gathered(&old(self).metrics, &final(self).metrics, line@, r@),
    {
        let r = self.metrics.gather_metrics(line);
        self.append_to_content(line);
        r
    }
}

/// The `i`-th call on an allocator found it at `before[i]`, left it at
/// `after[i]` and returned `index[i]`; no call starts before the previous one ended.
pub open spec fn allocated_in_order(
    before: Seq<MonitorIds>,
    after: Seq<MonitorIds>,
    index: Seq<usize>,
) -> bool {
    &&& before.len() == index.len()
    &&& after.len() == index.len()
    &&& forall|k: int|
        0 <= k < index.len() ==> #[trigger] index[k] == before[k].next && after[k].next
            == before[k].next + 1
    &&& forall|k: int| 0 <= k < index.len() - 1 ==> #[trigger] before[k + 1].next >= after[k].next
}

/// Monitors made one after another from one allocator get distinct, strictly
/// increasing indices, whatever their files and capacities: `LogMonitor::new`
/// returns the allocator's next index and moves it on by one.
pub proof fn lemma_indices_strictly_increase(
    before: Seq<MonitorIds>,
    after: Seq<MonitorIds>,
    index: Seq<usize>,
)
    requires
        allocated_in_order(before, after, index),
    ensures
        forall|i: int, j: int| 0 <= i < j < index.len() ==> index[i] < index[j],
        forall|i: int, j: int| 0 <= i < index.len() && 0 <= j < index.len() && i != j ==> index[i]
            != index[j],
{
    assert forall|i: int, j: int| 0 <= i < j < index.len() implies index[i] < index[j] by {
        lemma_index_below(before, after, index, i, j);
    }
    assert forall|i: int, j: int|
        0 <= i < index.len() && 0 <= j < index.len() && i != j implies index[i] != index[j] by {
        if i < j {
            lemma_index_below(before, after, index, i, j);
        } else {
            lemma_index_below(before, after, index, j, i);
        }
    }
}

proof fn lemma_index_below(
    before: Seq<MonitorIds>,
    after: Seq<MonitorIds>,
    index: Seq<usize>,
    i: int,
    j: int,
)
    requires
        allocated_in_order(before, after, index),
        0 <= i < j < index.len(),
    ensures
        index[i] < index[j],
    decreases j - i,
{
    if j > i + 1 {
        lemma_index_below(before, after, index, i, j - 1);
    }
    assert(index[j - 1] == before[j - 1].next);
    assert(before[(j - 1) + 1].next >= after[j - 1].next);
    assert(index[j] == before[j].next);
}

} // verus!
