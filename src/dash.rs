//! The dashboard's state and the decisions of its event loop: what each key,
//! tick and tailed line does, and when the input poll ticks.
use vstd::prelude::*;
use crate::content::{append_each, keep_last, views};
use crate::monitor::{LogMonitor, MonitorIds};

verus! {

/// The main layout of the dashboard.
#[derive(Clone, Copy, Debug, PartialEq, Eq, Structural)]
pub enum DashViewMain {
    DashHorizontal,
    DashVertical,
    DashDebug,
}

/// The state of the vertical layout: which monitor has the focus.
#[derive(Clone, Copy, Debug, PartialEq, Eq, Structural)]
pub struct DashVertical {
    pub active_view: usize,
}

impl DashVertical {
    pub fn new() -> (r: Self)
        ensures
            r.active_view == 0,
    {
        DashVertical { active_view: 0 }
    }
}

/// The layout and navigation state of the dashboard.
#[derive(Clone, Copy, Debug, PartialEq, Eq, Structural)]
pub struct DashState {
    pub main_view: DashViewMain,
    /// The parser's annotations are shown beside the first file.
    pub debug_ui: bool,
    pub dash_vertical: DashVertical,
}

impl DashState {
    pub fn new() -> (r: DashState)
        ensures
            r.main_view == DashViewMain::DashHorizontal,
            r.debug_ui == false,
            r.dash_vertical.active_view == 0,
    {
        DashState {
            main_view: DashViewMain::DashHorizontal,
            dash_vertical: DashVertical::new(),
            debug_ui: false,
        }
    }
}

/// A key press, as far as the dashboard tells keys apart.
#[derive(Clone, Copy, Debug, PartialEq, Eq, Structural)]
pub enum Key {
    Char(char),
    Up,
    Down,
    Left,
    Right,
    Tab,
    Other,
}

/// One event of the loop: a key, a tick, or a line tailed from a file.
pub enum DashEvent {
    Input(Key),
    Tick,
    Line { source: String, line: String },
}

pub open spec fn is_quit(ev: DashEvent) -> bool {
    ev == DashEvent::Input(Key::Char('q')) || ev == DashEvent::Input(Key::Char('Q'))
}

/// The layout that a key selects, if it selects one.
pub open spec fn view_for(k: Key) -> Option<DashViewMain> {
    if k == Key::Char('h') || k == Key::Char('H') {
        Some(DashViewMain::DashHorizontal)
    } else if k == Key::Char('v') || k == Key::Char('V') {
        Some(DashViewMain::DashVertical)
    } else if k == Key::Char('D') {
        Some(DashViewMain::DashDebug)
    } else {
        None
    }
}

/// The text that `ev` brings to the file at `path`, if any.
pub open spec fn line_for(ev: DashEvent, path: Seq<char>) -> Option<Seq<char>> {
    match ev {
        DashEvent::Line { source, line } => if source@ == path {
            Some(line@)
        } else {
            None
        },
        _ => None,
    }
}

/// The lines that `evs` bring to the file at `path`, in order.
pub open spec fn lines_for(evs: Seq<DashEvent>, path: Seq<char>) -> Seq<Seq<char>>
    decreases evs.len(),
{
    if evs.len() == 0 {
        Seq::empty()
    } else {
        match line_for(evs.last(), path) {
            Some(t) => lines_for(evs.drop_last(), path).push(t),
            None => lines_for(evs.drop_last(), path),
        }
    }
}

pub open spec fn next_focus(a: usize, n: nat) -> usize {
    if n == 0 {
        a
    } else if a + 1 < n {
        (a + 1) as usize
    } else {
        0
    }
}

pub open spec fn previous_focus(a: usize, n: nat) -> usize {
    if n == 0 {
        a
    } else if 0 < a && a < n {
        (a - 1) as usize
    } else {
        (n - 1) as usize
    }
}

/// The selection after moving down a list of `len` lines, wrapping round.
pub open spec fn next_selected(sel: Option<usize>, len: nat) -> Option<usize> {
    if len == 0 {
        None
    } else {
        match sel {
            Some(i) => if i + 1 < len {
                Some((i + 1) as usize)
            } else {
                Some(0)
            },
            None => Some(0),
        }
    }
}

/// The selection after moving up a list of `len` lines, wrapping round.
pub open spec fn previous_selected(sel: Option<usize>, len: nat) -> Option<usize> {
    if len == 0 {
        None
    } else {
        match sel {
            Some(i) => if 0 < i && i < len {
                Some((i - 1) as usize)
            } else {
                Some((len - 1) as usize)
            },
            None => Some((len - 1) as usize),
        }
    }
}

/// The focus after key `k` among `n` monitors.
pub open spec fn focus_after(a: usize, k: Key, n: nat) -> usize {
    if k == Key::Right || k == Key::Tab {
        next_focus(a, n)
    } else if k == Key::Left {
        previous_focus(a, n)
    } else {
        a
    }
}

/// The selection of a monitor's lines after key `k`, for the focused monitor.
pub open spec fn selected_after(sel: Option<usize>, k: Key, len: nat) -> Option<usize> {
    if k == Key::Down {
        next_selected(sel, len)
    } else if k == Key::Up {
        previous_selected(sel, len)
    } else {
        sel
    }
}

/// The monitors: one per file, in the order made, with increasing indices.
pub struct App {
    pub dash_state: DashState,
    pub monitors: Vec<LogMonitor>,
}

impl App {
    /// Each file has one monitor and indices increase along the vector.
    pub open spec fn wf(&self) -> bool {
        &&& forall|i: int, j: int|
            0 <= i < j < self.monitors@.len() ==> self.monitors@[i].logfile@
                != self.monitors@[j].logfile@
        &&& forall|i: int, j: int|
            0 <= i < j < self.monitors@.len() ==> self.monitors@[i].index
                < self.monitors@[j].index
    }

    /// Where the monitor of the file at `path` stands.
    pub fn find_monitor(&self, path: &String) -> (r: Option<usize>)
        ensures
            match r {
                Some(i) => i < self.monitors@.len() && self.monitors@[i as int].logfile@ == path@,
                None => forall|i: int|
                    0 <= i < self.monitors@.len() ==> self.monitors@[i].logfile@ != path@,
            },
    {
        let mut i: usize = 0;
        while i < self.monitors.len()
            invariant
                i <= self.monitors@.len(),
                forall|k: int| 0 <= k < i ==> self.monitors@[k].logfile@ != path@,
            decreases self.monitors@.len() - i,
        {
            if self.monitors[i].logfile == *path {
                return Some(i);
            }
            i += 1;
        }
        None
    }
}

impl App {
    /// The monitors of `self` and `o` are those of the same files, with the
    /// same indices and capacities.
    pub open spec fn same_files(&self, o: &App) -> bool {
        &&& self.monitors@.len() == o.monitors@.len()
        &&& forall|i: int|
            0 <= i < self.monitors@.len() ==> {
                &&& #[trigger] self.monitors@[i].index == o.monitors@[i].index
                &&& self.monitors@[i].logfile == o.monitors@[i].logfile
                &&& self.monitors@[i].max_content == o.monitors@[i].max_content
            }
    }

    fn move_focus(&mut self, k: Key)
        ensures
            final(self).dash_state.dash_vertical.active_view == focus_after(
                old(self).dash_state.dash_vertical.active_view,
                k,
                old(self).monitors@.len(),
            ),
            final(self).dash_state.main_view == old(self).dash_state.main_view,
            final(self).dash_state.debug_ui == old(self).dash_state.debug_ui,
            final(self).monitors == old(self).monitors,
    {
        let n = self.monitors.len();
        let a = self.dash_state.dash_vertical.active_view;
        if n == 0 {
            return;
        }
        if k == Key::Right || k == Key::Tab {
            self.dash_state.dash_vertical.active_view = if a < n - 1 {
                a + 1
            } else {
                0
            };
        } else if k == Key::Left {
            self.dash_state.dash_vertical.active_view = if 0 < a && a < n {
                a - 1
            } else {
                n - 1
            };
        }
    }

    fn move_selection(&mut self, k: Key)
        ensures
            final(self).dash_state == old(self).dash_state,
            final(self).monitors@.len() == old(self).monitors@.len(),
            forall|i: int|
                0 <= i < old(self).monitors@.len() ==> {
                    let m = old(self).monitors@[i];
                    let f = #[trigger] final(self).monitors@[i];
                    &&& f.selected == if i == old(self).dash_state.dash_vertical.active_view {
                        selected_after(m.selected, k, m.content@.len())
                    } else {
                        m.selected
                    }
                    &&& f.index == m.index
                    &&& f.logfile == m.logfile
                    &&& f.max_content == m.max_content
                    &&& f.content == m.content
                    &&& f.metrics == m.metrics
                },
    {
        let a = self.dash_state.dash_vertical.active_view;
        if a >= self.monitors.len() {
            return;
        }
        let len = self.monitors[a].content.len();
        let sel = self.monitors[a].selected;
        let next = if len == 0 && (k == Key::Down || k == Key::Up) {
            None
        } else if k == Key::Down {
            match sel {
                Some(i) => if i < len - 1 {
                    Some(i + 1)
                } else {
                    Some(0)
                },
                None => Some(0),
            }
        } else if k == Key::Up {
            match sel {
                Some(i) => if 0 < i && i < len {
                    Some(i - 1)
                } else {
                    Some(len - 1)
                },
                None => Some(len - 1),
            }
        } else {
            sel
        };
        self.monitors[a].selected = next;
    }

    /// Handles one event of the loop. Returns whether it was the quit key.
    /// A tailed line goes to the window of the monitor of its file, and only
    /// there: the metrics are left as they are, and a line of a file without a
    /// monitor is dropped. A key selects a layout or moves the focus or the
    /// selection; a tick and any other key change nothing.
    pub fn handle_event(&mut self, ev: &DashEvent) -> (quit: bool)
        requires
            old(self).wf(),
        ensures
            final(self).wf(),
            final(self).same_files(old(self)),
            quit == is_quit(*ev),
            forall|i: int|
                0 <= i < old(self).monitors@.len() ==> {
                    let m = old(self).monitors@[i];
                    let f = #[trigger] final(self).monitors@[i];
                    &&& f.content_view() == match line_for(*ev, m.logfile@) {
                        Some(t) => keep_last(m.content_view().push(t), m.max_content as nat),
                        None => m.content_view(),
                    }
                    &&& f.metrics == m.metrics
                },
            match *ev {
                DashEvent::Input(k) => {
                    &&& final(self).dash_state.main_view == match view_for(k) {
                        Some(v) => v,
                        None => old(self).dash_state.main_view,
                    }
                    &&& final(self).dash_state.dash_vertical.active_view == focus_after(
                        old(self).dash_state.dash_vertical.active_view,
                        k,
                        old(self).monitors@.len(),
                    )
                    &&& forall|i: int|
                        0 <= i < old(self).monitors@.len() ==> (#[trigger] final(self).monitors@[i]).selected
                            == if i == old(self).dash_state.dash_vertical.active_view {
                            selected_after(
                                old(self).monitors@[i].selected,
                                k,
                                old(self).monitors@[i].content@.len(),
                            )
                        } else {
                            old(self).monitors@[i].selected
                        }
                },
                _ => final(self).dash_state == old(self).dash_state,
            },
            final(self).dash_state.debug_ui == old(self).dash_state.debug_ui,
    {
        match ev {
            DashEvent::Input(k) => {
                let k = *k;
                if k == Key::Char('q') || k == Key::Char('Q') {
                    return true;
                }
                if k == Key::Char('h') || k == Key::Char('H') {
                    self.dash_state.main_view = DashViewMain::DashHorizontal;
                } else if k == Key::Char('v') || k == Key::Char('V') {
                    self.dash_state.main_view = DashViewMain::DashVertical;
                } else if k == Key::Char('D') {
                    self.dash_state.main_view = DashViewMain::DashDebug;
                } else if k == Key::Down || k == Key::Up {
                    self.move_selection(k);
                } else {
                    self.move_focus(k);
                }
                false
            },
            DashEvent::Tick => false,
            DashEvent::Line { source, line } => {
                match self.find_monitor(source) {
                    Some(i) => {
                        self.monitors[i].append_to_content(line.as_str());
                    },
                    None => {},
                }
                false
            },
        }
    }
}

impl App {
    /// Handles `events` in order, each once, until the quit key. Returns how
    /// many were handled: up to and including the first quit key, or all.
    /// Every tailed line among them reaches the window of its own file, in
    /// order, and no other.
    pub fn dispatch_all(&mut self, events: &Vec<DashEvent>) -> (handled: usize)
        requires
            old(self).wf(),
        ensures
            final(self).wf(),
            final(self).same_files(old(self)),
            handled <= events@.len(),
            forall|j: int| 0 <= j < handled - 1 ==> !is_quit(#[trigger] events@[j]),
            handled == events@.len() || is_quit(events@[handled - 1]),
            handled == 0 <==> events@.len() == 0,
            forall|i: int|
                0 <= i < old(self).monitors@.len() ==> {
                    let m = old(self).monitors@[i];
                    let f = #[trigger] final(self).monitors@[i];
                    &&& f.content_view() == append_each(
                        m.content_view(),
                        lines_for(events@.take(handled as int), m.logfile@),
                        m.max_content as nat,
                    )
                    &&& f.metrics == m.metrics
                },
    {
        let ghost start = *self;
        let mut k: usize = 0;
        while k < events.len()
            invariant
                k <= events@.len(),
                start == *old(self),
                self.wf(),
                self.same_files(&start),
                forall|j: int| 0 <= j < k ==> !is_quit(#[trigger] events@[j]),
                forall|i: int|
                    0 <= i < start.monitors@.len() ==> {
                        let m = start.monitors@[i];
                        let f = #[trigger] self.monitors@[i];
                        &&& f.content_view() == append_each(
                            m.content_view(),
                            lines_for(events@.take(k as int), m.logfile@),
                            m.max_content as nat,
                        )
                        &&& f.metrics == m.metrics
                    },
            decreases events@.len() - k,
        {
            let ghost before = *self;
            let quit = self.handle_event(&events[k]);
            proof {
                lemma_same_files_trans(self, &before, &start);
                let taken = events@.take(k + 1);
                assert(taken.drop_last() =~= events@.take(k as int));
                assert(taken.last() == events@[k as int]);
                assert forall|i: int| 0 <= i < start.monitors@.len() implies {
                    let m = start.monitors@[i];
                    let f = #[trigger] self.monitors@[i];
                    &&& f.content_view() == append_each(
                        m.content_view(),
                        lines_for(taken, m.logfile@),
                        m.max_content as nat,
                    )
                    &&& f.metrics == m.metrics
                } by {
                    let m = start.monitors@[i];
                    let b = before.monitors@[i];
                    assert(self.monitors@[i].index == b.index);
                    assert(b.index == m.index);
                    assert(b.logfile == m.logfile);
                    assert(b.max_content == m.max_content);
                    let prev = lines_for(events@.take(k as int), m.logfile@);
                    match line_for(events@[k as int], m.logfile@) {
                        Some(t) => {
                            assert(prev.push(t).drop_last() =~= prev);
                        },
                        None => {},
                    }
                }
            }
            k += 1;
            if quit {
                return k;
            }
        }
        assert(events@.take(k as int) =~= events@);
        k
    }
}

/// When the input poll of the event producer sends a tick: one tick per
/// elapsed interval, each deadline firing once.
#[derive(Clone, Copy, Debug, PartialEq, Eq, Structural)]
pub struct TickClock {
    /// The time of the last tick, in milliseconds.
    pub last_tick: u64,
    /// The interval between ticks, in milliseconds.
    pub tick_rate: u64,
}

impl TickClock {
    pub fn new(now: u64, tick_rate: u64) -> (r: TickClock)
        ensures
            r.last_tick == now,
            r.tick_rate == tick_rate,
    {
        TickClock { last_tick: now, tick_rate }
    }

    /// How long to wait for a key before the next tick is due.
    pub fn poll_timeout(&self, now: u64) -> (r: u64)
        requires
            self.last_tick <= now,
        ensures
            r == if now - self.last_tick >= self.tick_rate {
                0
            } else {
                self.tick_rate - (now - self.last_tick)
            },
    {
        let elapsed = now - self.last_tick;
        if elapsed >= self.tick_rate {
            0
        } else {
            self.tick_rate - elapsed
        }
    }

    /// Whether a tick is due at `now`; if so the deadline moves on by exactly
    /// one interval, so a deadline never fires twice.
    pub fn check_tick(&mut self, now: u64) -> (tick: bool)
        requires
            old(self).last_tick <= now,
        ensures
            tick == (now - old(self).last_tick >= old(self).tick_rate),
            final(self).tick_rate == old(self).tick_rate,
            final(self).last_tick == if tick {
                old(self).last_tick + old(self).tick_rate
            } else {
                old(self).last_tick as int
            },
            final(self).last_tick <= now,
    {
        if now - self.last_tick >= self.tick_rate {
            self.last_tick = self.last_tick + self.tick_rate;
            true
        } else {
            false
        }
    }
}

/// The files monitored: all of `files`, or in debug-parser mode the first of
/// them and the scratch file of the parser's annotations.
pub open spec fn monitored_files(files: Seq<String>, debug_file: Option<String>) -> Seq<Seq<char>> {
    match debug_file {
        Some(p) => seq![files[0]@, p@],
        None => views(files),
    }
}

/// Some monitor of `ms` is of the file at `f`.
pub open spec fn has_file(ms: Seq<LogMonitor>, f: Seq<char>) -> bool {
    exists|i: int| 0 <= i < ms.len() && (#[trigger] ms[i]).logfile@ == f
}

impl App {
    /// A fresh monitor of capacity `max` made from `ids` between `lo` and `hi`.
    pub open spec fn fresh_monitor(m: LogMonitor, max: usize, lo: usize, hi: usize) -> bool {
        &&& m.content@.len() == 0
        &&& m.selected is None
        &&& m.metrics.is_fresh()
        &&& m.max_content == max
        &&& lo <= m.index < hi
    }

    /// Adds a monitor of `f` unless one is there already.
    fn register(&mut self, f: String, lines_max: usize, ids: &mut MonitorIds)
        requires
            old(self).wf(),
            old(ids).next < usize::MAX,
            forall|i: int|
                0 <= i < old(self).monitors@.len() ==> (#[trigger] old(self).monitors@[i]).index
                    < old(ids).next,
        ensures
            final(self).wf(),
            final(self).dash_state == old(self).dash_state,
            old(ids).next <= final(ids).next <= old(ids).next + 1,
            final(self).monitors@.len() == old(self).monitors@.len() || (final(self).monitors@.len()
                == old(self).monitors@.len() + 1 && final(ids).next == old(ids).next + 1),
            forall|i: int|
                0 <= i < old(self).monitors@.len() ==> #[trigger] final(self).monitors@[i]
                    == old(self).monitors@[i],
            final(self).monitors@.len() == old(self).monitors@.len() + 1 ==> {
                let m = final(self).monitors@[old(self).monitors@.len() as int];
                &&& m.logfile@ == f@
                &&& App::fresh_monitor(m, lines_max, old(ids).next, final(ids).next)
            },
            exists|i: int|
                0 <= i < final(self).monitors@.len() && (#[trigger] final(self).monitors@[i]).logfile@
                    == f@,
    {
        match self.find_monitor(&f) {
            Some(_) => {},
            None => {
                let m = LogMonitor::new(f, lines_max, ids);
                self.monitors.push(m);
                assert(self.monitors@[self.monitors@.len() - 1] == m);
            },
        }
    }

    /// The dashboard for `files`, one monitor per distinct file, each keeping
    /// the last `lines_max` lines, with indices taken from `ids` in order. With
    /// a debug-parser scratch file only the first file is monitored, beside the
    /// scratch file, in the vertical layout. Without files there is none.
    #[verifier::rlimit(60)]
    pub fn new(
        files: &Vec<String>,
        lines_max: usize,
        debug_file: Option<String>,
        ids: &mut MonitorIds,
    ) -> (r: Option<App>)
        requires
            old(ids).next + files@.len() + 2 <= usize::MAX,
        ensures
            r is None <==> files@.len() == 0,
            r is None ==> final(ids).next == old(ids).next,
            r is Some ==> {
                let app = r.unwrap();
                let list = monitored_files(files@, debug_file);
                &&& app.wf()
                &&& old(ids).next <= final(ids).next
                &&& forall|i: int|
                    0 <= i < app.monitors@.len() ==> list.contains(
                        (#[trigger] app.monitors@[i]).logfile@,
                    ) && App::fresh_monitor(app.monitors@[i], lines_max, old(ids).next, final(ids).next)
                &&& forall|j: int| 0 <= j < list.len() ==> has_file(app.monitors@, #[trigger] list[j])
                &&& app.dash_state.debug_ui == debug_file is Some
                &&& app.dash_state.main_view == if debug_file is Some {
                    DashViewMain::DashVertical
                } else {
                    DashViewMain::DashHorizontal
                }
                &&& app.dash_state.dash_vertical.active_view == 0
            },
    {
        if files.len() == 0 {
            return None;
        }
        let mut dash_state = DashState::new();
        let mut list: Vec<String> = Vec::new();
        match debug_file {
            Some(p) => {
                dash_state.main_view = DashViewMain::DashVertical;
                dash_state.debug_ui = true;
                list.push(files[0].clone());
                list.push(p);
            },
            None => {
                let mut j: usize = 0;
                while j < files.len()
                    invariant
                        j <= files@.len(),
                        list@ == files@.take(j as int),
                    decreases files@.len() - j,
                {
                    list.push(files[j].clone());
                    assert(list@ =~= files@.take(j + 1));
                    j += 1;
                }
                assert(files@.take(files@.len() as int) =~= files@);
            },
        }
        let ghost target = monitored_files(files@, debug_file);
        assert(views(list@) =~= target);
        let ghost lo = ids.next;
        let mut app = App { dash_state, monitors: Vec::new() };
        let mut j: usize = 0;
        while j < list.len()
            invariant
                j <= list@.len(),
                list@.len() <= files@.len() + 2,
                views(list@) == target,
                lo == old(ids).next,
                lo <= ids.next <= lo + j,
                old(ids).next + files@.len() + 2 <= usize::MAX,
                app.wf(),
                app.dash_state == dash_state,
                forall|i: int|
                    0 <= i < app.monitors@.len() ==> (#[trigger] app.monitors@[i]).index < ids.next,
                forall|i: int|
                    0 <= i < app.monitors@.len() ==> (exists|k: int|
                        0 <= k < j && target[k] == (#[trigger] app.monitors@[i]).logfile@)
                        && App::fresh_monitor(app.monitors@[i], lines_max, lo, ids.next),
                forall|k: int| 0 <= k < j ==> #[trigger] has_file(app.monitors@, target[k]),
            decreases list@.len() - j,
        {
            let f = list[j].clone();
            assert(target[j as int] == f@);
            let ghost old_monitors = app.monitors@;
            app.register(f, lines_max, ids);
            assert forall|i: int| 0 <= i < app.monitors@.len() implies (exists|k: int|
                0 <= k < j + 1 && target[k] == (#[trigger] app.monitors@[i]).logfile@)
                && App::fresh_monitor(app.monitors@[i], lines_max, lo, ids.next) by {
                if i < old_monitors.len() {
                    assert(app.monitors@[i] == old_monitors[i]);
                } else {
                    assert(target[j as int] == app.monitors@[i].logfile@);
                }
            }
            assert forall|k: int| 0 <= k < j + 1 implies #[trigger] has_file(app.monitors@, target[k]) by {
                if k < j {
                    assert(has_file(old_monitors, target[k]));
                    let i0 = choose|i: int|
                        0 <= i < old_monitors.len() && (#[trigger] old_monitors[i]).logfile@
                            == target[k];
                    assert(app.monitors@[i0] == old_monitors[i0]);
                }
            }
            j += 1;
        }
        assert(target.len() == list@.len());
        assert forall|i: int| 0 <= i < app.monitors@.len() implies target.contains(
            (#[trigger] app.monitors@[i]).logfile@,
        ) by {
            let k = choose|k: int| 0 <= k < j && target[k] == app.monitors@[i].logfile@;
            assert(target[k] == app.monitors@[i].logfile@);
        }
        Some(app)
    }
}

/// Tailed lines reach only the window of their own file. Events that bring no
/// line for `path` bring it nothing; those that do bring at most one line each;
/// and a window of capacity `n` that takes the lines brought to it holds the
/// last `n` of its old lines followed by them, in order.
pub proof fn lemma_lines_routed_by_path(
    c: Seq<Seq<char>>,
    evs: Seq<DashEvent>,
    path: Seq<char>,
    n: nat,
)
    requires
        c.len() <= n,
    ensures
        (forall|k: int| 0 <= k < evs.len() ==> line_for(#[trigger] evs[k], path) is None)
            ==> lines_for(evs, path) == Seq::<Seq<char>>::empty(),
        lines_for(evs, path).len() <= evs.len(),
        append_each(c, lines_for(evs, path), n) == keep_last(c + lines_for(evs, path), n),
    decreases evs.len(),
{
    crate::content::lemma_window_keeps_latest(c, lines_for(evs, path), n);
    if evs.len() > 0 {
        lemma_lines_routed_by_path(c, evs.drop_last(), path, n);
        if forall|k: int| 0 <= k < evs.len() ==> line_for(#[trigger] evs[k], path) is None {
            assert forall|k: int| 0 <= k < evs.drop_last().len() implies line_for(
                #[trigger] evs.drop_last()[k],
                path,
            ) is None by {
                assert(evs.drop_last()[k] == evs[k]);
            }
            assert(line_for(evs[evs.len() - 1], path) is None);
        }
    }
}

proof fn lemma_same_files_trans(a: &App, b: &App, c: &App)
    requires
        a.same_files(b),
        b.same_files(c),
    ensures
        a.same_files(c),
{
    assert forall|i: int| 0 <= i < a.monitors@.len() implies #[trigger] a.monitors@[i].index
        == c.monitors@[i].index && a.monitors@[i].logfile == c.monitors@[i].logfile
        && a.monitors@[i].max_content == c.monitors@[i].max_content by {
        assert(a.monitors@[i].index == b.monitors@[i].index);
        assert(b.monitors@[i].index == c.monitors@[i].index);
    }
}

} // verus!
