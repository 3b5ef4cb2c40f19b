//! The metrics engine: per-file state carried from line to line, with the
//! vault's lifecycle bracket as an explicit state machine.
use vstd::prelude::*;
use vstd::string::*;
use std::collections::HashMap;
use crate::decoder::{EntryView, LogEntry, Timestamp, decode_spec};
use crate::text::{
    chars_of, find_first, find_last_report, find_run_end, first_occurrence, last_report,
    run_end, substring, in_class,
};

verus! {

/// The coarse role of a vault, as its log reports it.
#[derive(Clone, Copy, Debug, PartialEq, Eq, Structural)]
pub enum VaultAgebracket {
    Unknown,
    Child,
    Adult,
    Elder,
}

/// The four shapes of state line.
#[derive(Clone, Copy, Debug, PartialEq, Eq, Structural)]
pub enum StateKind {
    Elders,
    Adults,
    InitialisedAs,
    PromotedTo,
}

/// A recognized state report, independent of how it was written.
#[derive(Clone, Copy, Debug, PartialEq, Eq, Structural)]
pub enum StateEvent {
    EldersCount(usize),
    AdultsCount(usize),
    BracketChange(VaultAgebracket),
}

pub open spec fn next_bracket_spec(b: VaultAgebracket, ev: StateEvent) -> VaultAgebracket {
    match ev {
        StateEvent::BracketChange(x) => x,
        _ => b,
    }
}

/// The lifecycle transition: only a bracket change moves the bracket.
pub fn next_bracket(b: VaultAgebracket, ev: StateEvent) -> (r: VaultAgebracket)
    ensures
        r == next_bracket_spec(b, ev),
{
    match ev {
        StateEvent::BracketChange(x) => x,
        _ => b,
    }
}

pub open spec fn bracket_named(w: Seq<char>) -> VaultAgebracket {
    if w == "Child"@ {
        VaultAgebracket::Child
    } else if w == "Adult"@ {
        VaultAgebracket::Adult
    } else if w == "Elder"@ {
        VaultAgebracket::Elder
    } else {
        VaultAgebracket::Unknown
    }
}

pub fn bracket_from_word(w: &String) -> (r: VaultAgebracket)
    ensures
        r == bracket_named(w@),
{
    if *w == String::from_str("Child") {
        VaultAgebracket::Child
    } else if *w == String::from_str("Adult") {
        VaultAgebracket::Adult
    } else if *w == String::from_str("Elder") {
        VaultAgebracket::Elder
    } else {
        VaultAgebracket::Unknown
    }
}

pub open spec fn digit_value(c: char) -> int {
    (c as u32) as int - ('0' as u32) as int
}

/// The number written by a run of decimal digits.
pub open spec fn decimal_value(d: Seq<char>) -> int
    decreases d.len(),
{
    if d.len() == 0 {
        0
    } else {
        decimal_value(d.drop_last()) * 10 + digit_value(d.last())
    }
}

/// A written count, saturated at the largest `usize`.
pub open spec fn count_of(d: Seq<char>) -> usize {
    if decimal_value(d) > usize::MAX {
        usize::MAX
    } else {
        decimal_value(d) as usize
    }
}

proof fn lemma_decimal_nonneg(d: Seq<char>)
    requires
        forall|i: int| 0 <= i < d.len() ==> in_class(#[trigger] d[i], true),
    ensures
        decimal_value(d) >= 0,
    decreases d.len(),
{
    if d.len() > 0 {
        lemma_decimal_nonneg(d.drop_last());
    }
}

/// Reads the count written in `s[lo..hi]`, a run of digits.
fn parse_count(s: &Vec<char>, lo: usize, hi: usize) -> (r: usize)
    requires
        lo <= hi <= s.len(),
        forall|i: int| lo <= i < hi ==> in_class(#[trigger] s@[i], true),
    ensures
        r == count_of(s@.subrange(lo as int, hi as int)),
{
    let mut v: usize = 0;
    let mut i: usize = lo;
    assert(s@.subrange(lo as int, lo as int) =~= Seq::<char>::empty());
    while i < hi
        invariant
            lo <= i <= hi <= s.len(),
            forall|k: int| lo <= k < hi ==> in_class(#[trigger] s@[k], true),
            v == count_of(s@.subrange(lo as int, i as int)),
        decreases hi - i,
    {
        let d = (s[i] as u32 - '0' as u32) as usize;
        let ghost prev = s@.subrange(lo as int, i as int);
        let ghost next = s@.subrange(lo as int, i + 1);
        assert(next.drop_last() =~= prev);
        assert(next.last() == s@[i as int]);
        assert(0 <= d <= 9);
        proof {
            lemma_decimal_nonneg(prev);
        }
        if v > (usize::MAX - d) / 10 {
            assert(decimal_value(next) > usize::MAX) by (nonlinear_arith)
                requires
                    decimal_value(next) == decimal_value(prev) * 10 + d,
                    decimal_value(prev) >= v,
                    v > (usize::MAX - d) / 10,
                    d <= 9,
            ;
            v = usize::MAX;
        } else {
            assert(decimal_value(prev) <= usize::MAX);
            assert(v * 10 + d <= usize::MAX) by (nonlinear_arith)
                requires
                    v <= (usize::MAX - d) / 10,
                    d <= 9,
            ;
            v = v * 10 + d;
        }
        i += 1;
    }
    v
}

pub open spec fn vault_marker() -> Seq<char> {
    "vault.rs"@
}

pub open spec fn elders_label() -> Seq<char> {
    "No. of Elders: "@
}

pub open spec fn adults_label() -> Seq<char> {
    "No. of Adults: "@
}

pub open spec fn initialised_label() -> Seq<char> {
    "Initializing new Vault as "@
}

pub open spec fn promoted_label() -> Seq<char> {
    "Vault promoted to "@
}

/// Just past the first `vault.rs` in the line, or -1.
pub open spec fn vault_end(s: Seq<char>) -> int {
    let i = first_occurrence(s, vault_marker(), 0);
    if i < 0 {
        -1
    } else {
        i + vault_marker().len()
    }
}

/// Where the last report of `label` after `vault.rs` starts, or -1.
pub open spec fn report_start(s: Seq<char>, label: Seq<char>, digits: bool) -> int {
    if vault_end(s) < 0 {
        -1
    } else {
        last_report(s, label, digits, vault_end(s), s.len() as int)
    }
}

/// The digits or the word that follow that report.
pub open spec fn report_word(s: Seq<char>, label: Seq<char>, digits: bool) -> Seq<char> {
    let a = report_start(s, label, digits) + label.len();
    s.subrange(a, run_end(s, a, digits))
}

/// The state report in a line: the first shape that matches, in the order
/// elders, adults, initialised as, promoted to.
pub open spec fn state_line(s: Seq<char>) -> Option<(StateKind, Seq<char>)> {
    if report_start(s, elders_label(), true) >= 0 {
        Some((StateKind::Elders, report_word(s, elders_label(), true)))
    } else if report_start(s, adults_label(), true) >= 0 {
        Some((StateKind::Adults, report_word(s, adults_label(), true)))
    } else if report_start(s, initialised_label(), false) >= 0 {
        Some((StateKind::InitialisedAs, report_word(s, initialised_label(), false)))
    } else if report_start(s, promoted_label(), false) >= 0 {
        Some((StateKind::PromotedTo, report_word(s, promoted_label(), false)))
    } else {
        None
    }
}

pub open spec fn state_event(k: StateKind, w: Seq<char>) -> StateEvent {
    match k {
        StateKind::Elders => StateEvent::EldersCount(count_of(w)),
        StateKind::Adults => StateEvent::AdultsCount(count_of(w)),
        _ => StateEvent::BracketChange(bracket_named(w)),
    }
}

pub open spec fn state_annotation(k: StateKind, w: Seq<char>) -> Seq<char> {
    match k {
        StateKind::Elders => "ELDERS: "@ + w,
        StateKind::Adults => "ADULTS: "@ + w,
        _ => "Vault agebracket: "@ + w,
    }
}

/// The bracket after a line has been read as a state line.
pub open spec fn bracket_after(b: VaultAgebracket, s: Seq<char>) -> VaultAgebracket {
    match state_line(s) {
        Some(r) => next_bracket_spec(b, state_event(r.0, r.1)),
        None => b,
    }
}

pub open spec fn elders_after(n: usize, s: Seq<char>) -> usize {
    match state_line(s) {
        Some(r) => if r.0 == StateKind::Elders {
            count_of(r.1)
        } else {
            n
        },
        None => n,
    }
}

pub open spec fn adults_after(n: usize, s: Seq<char>) -> usize {
    match state_line(s) {
        Some(r) => if r.0 == StateKind::Adults {
            count_of(r.1)
        } else {
            n
        },
        None => n,
    }
}

/// The annotation after a line whose decoder annotation is `a`.
pub open spec fn annotation_after(a: Seq<char>, s: Seq<char>) -> Seq<char> {
    match state_line(s) {
        Some(r) => state_annotation(r.0, r.1),
        None => a,
    }
}

/// Finds the last report of `label` in `s[lo..]`; returns where its word starts and ends.
fn find_report(s: &Vec<char>, lo: usize, label: &str, digits: bool) -> (r: Option<(usize, usize)>)
    ensures
        match r {
            Some(p) => {
                &&& last_report(s@, label@, digits, lo as int, s@.len() as int) >= 0
                &&& p.0 == last_report(s@, label@, digits, lo as int, s@.len() as int) + label@.len()
                &&& p.1 == run_end(s@, p.0 as int, digits)
                &&& p.0 < p.1 <= s@.len()
            },
            None => last_report(s@, label@, digits, lo as int, s@.len() as int) == -1,
        },
{
    let pat = chars_of(label);
    match find_last_report(s, &pat, digits, lo) {
        Some(k) => {
            proof {
                lemma_last_report_is_report(s@, label@, digits, lo as int, s@.len() as int);
            }
            assert(pat@ == label@);
            assert(crate::text::report_at(s@, k as int, pat@, digits));
            assert(k + pat@.len() < s@.len());
            assert(in_class(s@[k + pat@.len()], digits));
            let n = s.len();
            let a = k + pat.len();
            let b = find_run_end(s, a, digits);
            assert(run_end(s@, a as int, digits) == run_end(s@, a + 1, digits));
            proof {
                crate::text::lemma_run_end_bounds(s@, a + 1, digits);
            }
            Some((a, b))
        },
        None => None,
    }
}

proof fn lemma_last_report_is_report(s: Seq<char>, pat: Seq<char>, digits: bool, lo: int, hi: int)
    ensures
        last_report(s, pat, digits, lo, hi) >= 0 ==> {
            let k = last_report(s, pat, digits, lo, hi);
            &&& crate::text::report_at(s, k, pat, digits)
            &&& lo <= k < hi
        },
    decreases hi - lo,
{
    if hi > lo && !crate::text::report_at(s, hi - 1, pat, digits) {
        lemma_last_report_is_report(s, pat, digits, lo, hi - 1);
    }
}

proof fn lemma_first_occurrence_occurs(s: Seq<char>, pat: Seq<char>, i: int)
    ensures
        first_occurrence(s, pat, i) >= 0 ==> crate::text::occurs_at(
            s,
            first_occurrence(s, pat, i),
            pat,
        ) && first_occurrence(s, pat, i) >= i,
    decreases s.len() + 1 - i,
{
    if 0 <= i <= s.len() && !crate::text::occurs_at(s, i, pat) {
        lemma_first_occurrence_occurs(s, pat, i + 1);
    }
}

/// Recognizes the state report in a line: its shape, and where its digits or
/// word start and end.
fn recognize(s: &Vec<char>) -> (r: Option<(StateKind, usize, usize)>)
    ensures
        match r {
            Some(t) => {
                &&& t.1 <= t.2 <= s@.len()
                &&& state_line(s@) == Some((t.0, s@.subrange(t.1 as int, t.2 as int)))
                &&& forall|i: int| t.1 <= i < t.2 ==> in_class(#[trigger] s@[i], t.0 == StateKind::Elders || t.0 == StateKind::Adults)
            },
            None => state_line(s@) is None,
        },
{
    let marker = chars_of("vault.rs");
    let n = s.len();
    let v = match find_first(s, &marker, 0) {
        Some(i) => {
            proof {
                lemma_first_occurrence_occurs(s@, marker@, 0);
            }
            i + marker.len()
        },
        None => {
            return None;
        },
    };
    assert(vault_end(s@) == v);
    let r = if let Some(p) = find_report(s, v, "No. of Elders: ", true) {
        Some((StateKind::Elders, p.0, p.1))
    } else if let Some(p) = find_report(s, v, "No. of Adults: ", true) {
        Some((StateKind::Adults, p.0, p.1))
    } else if let Some(p) = find_report(s, v, "Initializing new Vault as ", false) {
        Some((StateKind::InitialisedAs, p.0, p.1))
    } else if let Some(p) = find_report(s, v, "Vault promoted to ", false) {
        Some((StateKind::PromotedTo, p.0, p.1))
    } else {
        None
    };
    proof {
        if let Some(t) = r {
            let digits = t.0 == StateKind::Elders || t.0 == StateKind::Adults;
            lemma_run_is_class(s@, t.1 as int, digits);
        }
    }
    r
}

proof fn lemma_run_is_class(s: Seq<char>, a: int, digits: bool)
    requires
        0 <= a <= s.len(),
    ensures
        forall|i: int| a <= i < run_end(s, a, digits) ==> in_class(#[trigger] s[i], digits),
    decreases s.len() - a,
{
    if 0 <= a < s.len() && in_class(s[a], digits) {
        lemma_run_is_class(s, a + 1, digits);
    }
}

/// What the engine has gathered from one file's lines.
pub struct VaultMetrics {
    /// The most recent timestamp known when the start banner was read.
    pub vault_started: Option<Timestamp>,
    /// The whole start banner line.
    pub running_message: Option<String>,
    /// The version that the start banner names.
    pub running_version: Option<String>,
    /// Every decoded entry, in the order read.
    pub timeline: Vec<LogEntry>,
    /// The last timestamp read, inherited by entries that have none.
    pub most_recent: Option<Timestamp>,
    /// The timestamp field that `most_recent` was read from.
    pub most_recent_string: String,
    pub agebracket: VaultAgebracket,
    pub adults: usize,
    pub elders: usize,
    /// How the last decoded line was read.
    pub parser_output: String,
    /// Entries counted by category.
    pub category_count: HashMap<String, usize>,
}

pub open spec fn running_prefix() -> Seq<char> {
    "Running "@
}

/// Where the product name of a start banner ends: the first space after
/// `Running `, or -1.
pub open spec fn name_end(s: Seq<char>) -> int {
    first_occurrence(s, " "@, running_prefix().len() as int)
}

/// The start banner: `Running `, a non-empty product name without spaces, a
/// space, and the version as the rest of the line.
pub open spec fn is_start_line(s: Seq<char>) -> bool {
    &&& s.len() >= running_prefix().len()
    &&& s.subrange(0, running_prefix().len() as int) == running_prefix()
    &&& name_end(s) > running_prefix().len()
}

/// The version that a start banner names.
pub open spec fn start_version(s: Seq<char>) -> Seq<char> {
    s.subrange(name_end(s) + " "@.len(), s.len() as int)
}

pub open spec fn start_annotation(recent: Option<Timestamp>, recent_string: Seq<char>) -> Seq<char> {
    "START at "@ + if recent is Some {
        recent_string
    } else {
        "None"@
    }
}

/// The entry made for a start banner, stamped with the most recent timestamp.
pub open spec fn start_entry(
    s: Seq<char>,
    recent: Option<Timestamp>,
    recent_string: Seq<char>,
) -> EntryView {
    EntryView {
        logstring: s,
        category: "START"@,
        time_string: recent_string,
        time: recent,
        source: Seq::empty(),
        message: s,
        parser_output: start_annotation(recent, recent_string),
    }
}

/// What a line decodes to in this engine: a structured line, else a start banner.
pub open spec fn entry_for(
    s: Seq<char>,
    recent: Option<Timestamp>,
    recent_string: Seq<char>,
) -> Option<EntryView> {
    match decode_spec(s) {
        Some(e) => Some(e),
        None => if is_start_line(s) {
            Some(start_entry(s, recent, recent_string))
        } else {
            None
        },
    }
}

/// The timestamp an entry carries on the timeline: its own, else the most recent.
pub open spec fn effective_time(own: Option<Timestamp>, recent: Option<Timestamp>) -> Option<Timestamp> {
    if own is Some {
        own
    } else {
        recent
    }
}

/// The entry as it stands on the timeline.
pub open spec fn stamped(e: EntryView, recent: Option<Timestamp>) -> EntryView {
    EntryView { time: effective_time(e.time, recent), ..e }
}

impl VaultMetrics {
    /// The start fields, the timeline and the timestamps of `self` and `o` agree.
    pub open spec fn same_history(&self, o: &VaultMetrics) -> bool {
        &&& self.vault_started == o.vault_started
        &&& self.running_message == o.running_message
        &&& self.running_version == o.running_version
        &&& self.timeline == o.timeline
        &&& self.most_recent == o.most_recent
        &&& self.most_recent_string == o.most_recent_string
        &&& self.category_count == o.category_count
    }

    /// The bracket, the counts and the annotation of `self` and `o` agree.
    pub open spec fn same_state(&self, o: &VaultMetrics) -> bool {
        &&& self.agebracket == o.agebracket
        &&& self.adults == o.adults
        &&& self.elders == o.elders
        &&& self.parser_output == o.parser_output
    }

    /// Nothing has been read yet.
    pub open spec fn is_fresh(&self) -> bool {
        &&& self.vault_started is None
        &&& self.running_message is None
        &&& self.running_version is None
        &&& self.timeline@.len() == 0
        &&& self.most_recent is None
        &&& self.most_recent_string@ == Seq::<char>::empty()
        &&& self.agebracket == VaultAgebracket::Child
        &&& self.adults == 0
        &&& self.elders == 0
        &&& self.parser_output@ == "-"@
        &&& self.category_count@ == Map::<String, usize>::empty()
    }

    pub fn new() -> (r: VaultMetrics)
        ensures
            r.is_fresh(),
    {
        VaultMetrics {
            vault_started: None,
            running_message: None,
            running_version: None,
            timeline: Vec::new(),
            most_recent: None,
            most_recent_string: String::new(),
            agebracket: VaultAgebracket::Child,
            adults: 0,
            elders: 0,
            parser_output: String::from_str("-"),
            category_count: HashMap::new(),
        }
    }

    /// Puts the lifecycle state back to its start.
    pub fn reset_metrics(&mut self)
        ensures
            final(self).agebracket == VaultAgebracket::Child,
            final(self).adults == 0,
            final(self).elders == 0,
            final(self).parser_output == old(self).parser_output,
            final(self).same_history(old(self)),
    {
        self.agebracket = VaultAgebracket::Child;
        self.adults = 0;
        self.elders = 0;
    }

    /// Reads the start banner: records the line, its version and the start
    /// time, and returns the entry made for it. Any other line changes nothing.
    pub fn parse_start(&mut self, line: &str) -> (r: Option<LogEntry>)
        ensures
            is_start_line(line@) ==> {
                &&& r is Some
                &&& r.unwrap()@ == start_entry(
                    line@,
                    old(self).most_recent,
                    old(self).most_recent_string@,
                )
                &&& final(self).running_message is Some
                &&& final(self).running_message.unwrap()@ == line@
                &&& final(self).running_version is Some
                &&& final(self).running_version.unwrap()@ == start_version(line@)
                &&& final(self).vault_started == old(self).most_recent
                &&& final(self).timeline == old(self).timeline
                &&& final(self).most_recent == old(self).most_recent
                &&& final(self).most_recent_string == old(self).most_recent_string
                &&& final(self).category_count == old(self).category_count
                &&& final(self).same_state(old(self))
            },
            !is_start_line(line@) ==> r is None && *final(self) == *old(self),
    {
        let prefix = "Running ";
        let plen = prefix.unicode_len();
        let n = line.unicode_len();
        if n < plen {
            return None;
        }
        let head = substring(line, 0, plen);
        if head != String::from_str(prefix) {
            return None;
        }
        let s = chars_of(line);
        let space = chars_of(" ");
        let p = match find_first(&s, &space, plen) {
            Some(p) => p,
            None => {
                return None;
            },
        };
        if p == plen {
            return None;
        }
        proof {
            lemma_first_occurrence_occurs(s@, space@, plen as int);
        }
        let version_start = p + space.len();
        self.running_message = Some(String::from_str(line));
        self.running_version = Some(substring(line, version_start, n));
        self.vault_started = self.most_recent;
        let mut parser_output = String::from_str("START at ");
        match self.most_recent {
            Some(_) => parser_output.append(self.most_recent_string.as_str()),
            None => parser_output.append("None"),
        }
        let e = LogEntry {
            logstring: String::from_str(line),
            category: String::from_str("START"),
            time_string: self.most_recent_string.clone(),
            time: self.most_recent,
            source: String::new(),
            message: String::from_str(line),
            parser_output,
        };
        assert(e@.parser_output =~= start_annotation(self.most_recent, self.most_recent_string@));
        Some(e)
    }

    /// Reads the entry's line as a state report. Returns whether it was one;
    /// only then do the bracket, the counts and the annotation change.
    pub fn parse_states(&mut self, entry: &LogEntry) -> (updated: bool)
        ensures
            updated == state_line(entry.logstring@) is Some,
            final(self).agebracket == bracket_after(old(self).agebracket, entry.logstring@),
            final(self).elders == elders_after(old(self).elders, entry.logstring@),
            final(self).adults == adults_after(old(self).adults, entry.logstring@),
            final(self).parser_output@ == annotation_after(
                old(self).parser_output@,
                entry.logstring@,
            ),
            final(self).same_history(old(self)),
    {
        let s = chars_of(entry.logstring.as_str());
        match recognize(&s) {
            Some((kind, a, b)) => {
                let word = substring(entry.logstring.as_str(), a, b);
                let ev = match kind {
                    StateKind::Elders => {
                        self.parser_output = String::from_str("ELDERS: ").concat(word.as_str());
                        StateEvent::EldersCount(parse_count(&s, a, b))
                    },
                    StateKind::Adults => {
                        self.parser_output = String::from_str("ADULTS: ").concat(word.as_str());
                        StateEvent::AdultsCount(parse_count(&s, a, b))
                    },
                    _ => {
                        self.parser_output = String::from_str("Vault agebracket: ").concat(
                            word.as_str(),
                        );
                        StateEvent::BracketChange(bracket_from_word(&word))
                    },
                };
                match ev {
                    StateEvent::EldersCount(n) => self.elders = n,
                    StateEvent::AdultsCount(n) => self.adults = n,
                    StateEvent::BracketChange(_) => {},
                }
                self.agebracket = next_bracket(self.agebracket, ev);
                true
            },
            None => false,
        }
    }

    /// `post` and the annotation `r` are what reading `line` makes of `pre`.
    pub open spec fn gathered(
        pre: &VaultMetrics,
        post: &VaultMetrics,
        line: Seq<char>,
        r: Seq<char>,
    ) -> bool {
        match entry_for(line, pre.most_recent, pre.most_recent_string@) {
            None => *post == *pre && r == Seq::<char>::empty(),
            Some(e) => {
                &&& post.timeline@ == pre.timeline@.push(
                    post.timeline@.last(),
                )
                &&& post.timeline@.last()@ == stamped(e, pre.most_recent)
                &&& post.most_recent == effective_time(e.time, pre.most_recent)
                &&& post.most_recent_string@ == if e.time is Some {
                    e.time_string
                } else {
                    pre.most_recent_string@
                }
                &&& post.agebracket == bracket_after(pre.agebracket, line)
                &&& post.elders == elders_after(pre.elders, line)
                &&& post.adults == adults_after(pre.adults, line)
                &&& post.parser_output@ == annotation_after(e.parser_output, line)
                &&& r == post.parser_output@
                &&& post.category_count == pre.category_count
                &&& decode_spec(line) is Some ==> {
                    &&& post.vault_started == pre.vault_started
                    &&& post.running_message == pre.running_message
                    &&& post.running_version == pre.running_version
                }
                &&& decode_spec(line) is None ==> {
                    &&& post.vault_started == pre.most_recent
                    &&& post.running_message is Some
                    &&& post.running_message.unwrap()@ == line
                    &&& post.running_version is Some
                    &&& post.running_version.unwrap()@ == start_version(line)
                }
            },
        }
    }

    /// Reads one line of the file. A structured line or a start banner is
    /// stamped (its own timestamp, else the most recent one), read as a state
    /// report, and appended to the timeline. Returns the annotation of what was
    /// read, or an empty string when the line decoded to nothing.
    pub fn gather_metrics(&mut self, line: &str) -> (r: String)
        ensures
            VaultMetrics::gathered(old(self), final(self), line@, r@),
    {
        let decoded = match LogEntry::decode(line) {
            Some(e) => Some(e),
            None => self.parse_start(line),
        };
        match decoded {
            Some(mut entry) => {
                if entry.time.is_none() {
                    entry.time = self.most_recent;
                } else {
                    self.most_recent = entry.time;
                    self.most_recent_string = entry.time_string.clone();
                }
                self.parser_output = entry.parser_output.clone();
                self.parse_states(&entry);
                let r = self.parser_output.clone();
                self.timeline.push(entry);
                r
            },
            None => String::new(),
        }
    }
}

/// The bracket moves only on a line of the shape `Initializing new Vault as X`
/// or `Vault promoted to X`, and then to the bracket that `X` names; every
/// other line, count reports included, leaves it as it was.
pub proof fn lemma_bracket_moves_only_on_transition_lines(b: VaultAgebracket, s: Seq<char>)
    ensures
        bracket_after(b, s) != b ==> {
            &&& state_line(s) is Some
            &&& (state_line(s).unwrap().0 == StateKind::InitialisedAs || state_line(s).unwrap().0
                == StateKind::PromotedTo)
            &&& bracket_after(b, s) == bracket_named(state_line(s).unwrap().1)
        },
        state_line(s) is None ==> bracket_after(b, s) == b,
{
}

/// An entry without a timestamp of its own is stamped with the most recent
/// timestamp of the file (none, if none was read yet), and the most recent
/// timestamp stays; an entry with one makes it the most recent.
pub proof fn lemma_untimed_entries_inherit(
    pre: &VaultMetrics,
    post: &VaultMetrics,
    line: Seq<char>,
    r: Seq<char>,
)
    requires
        VaultMetrics::gathered(pre, post, line, r),
        entry_for(line, pre.most_recent, pre.most_recent_string@) is Some,
    ensures
        ({
            let e = entry_for(line, pre.most_recent, pre.most_recent_string@).unwrap();
            &&& e.time is None ==> post.timeline@.last().time == pre.most_recent
                && post.most_recent == pre.most_recent
            &&& e.time is Some ==> post.timeline@.last().time == e.time && post.most_recent
                == e.time
        }),
{
}

} // verus!
