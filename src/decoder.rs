//! The line decoder: a raw log line becomes a structured entry, or nothing.
//!
//! A structured line reads `CCCC <timestamp> [source] message`: four uppercase
//! letters, a space, a 35-character timestamp field without spaces, a space, a
//! bracketed source locator that ends at the last `]` followed by a space, and
//! the rest of the line as the message.
use vstd::prelude::*;
use vstd::string::*;
use crate::text::{chars_of, substring};

verus! {

/// An instant with the UTC offset it was written in.
#[derive(Clone, Copy, Debug, PartialEq, Eq, Structural)]
pub struct Timestamp {
    /// Seconds since the Unix epoch.
    pub secs: i64,
    /// Nanoseconds within the second.
    pub nanos: u32,
    /// The offset from UTC, in seconds.
    pub offset_secs: i32,
}

/// What chrono's RFC 3339 parser makes of a string: seconds, nanoseconds and
/// offset, or nothing when the string is not a valid RFC 3339 date and time.
pub uninterp spec fn rfc3339_instant(s: Seq<char>) -> Option<(i64, u32, i32)>;

pub open spec fn stamp_of(p: Option<(i64, u32, i32)>) -> Option<Timestamp> {
    match p {
        Some(t) => Some(Timestamp { secs: t.0, nanos: t.1, offset_secs: t.2 }),
        None => None,
    }
}

/// Relies on chrono's `DateTime::<FixedOffset>::parse_from_rfc3339`: its result
/// depends on the text alone; the instant and offset are read back with
/// `timestamp`, `timestamp_subsec_nanos` and `offset().local_minus_utc()`.
#[verifier::external_body]
fn parse_rfc3339(s: &str) -> (r: Option<Timestamp>)
    ensures
        r == stamp_of(rfc3339_instant(s@)),
{
    match chrono::DateTime::parse_from_rfc3339(s) {
        Ok(t) => Some(
            Timestamp {
                secs: t.timestamp(),
                nanos: t.timestamp_subsec_nanos(),
                offset_secs: t.offset().local_minus_utc(),
            },
        ),
        Err(_) => None,
    }
}

/// A decoded log line. Immutable once built.
pub struct LogEntry {
    /// The whole raw line.
    pub logstring: String,
    /// A short classification token: `INFO`, `WARN`, `START`, ...
    pub category: String,
    /// The timestamp field exactly as written (empty where the line had none).
    pub time_string: String,
    /// The parsed timestamp, where there is one.
    pub time: Option<Timestamp>,
    /// The bracketed source locator, brackets included.
    pub source: String,
    pub message: String,
    /// How the line was read, for debugging the decoder.
    pub parser_output: String,
}

pub struct EntryView {
    pub logstring: Seq<char>,
    pub category: Seq<char>,
    pub time_string: Seq<char>,
    pub time: Option<Timestamp>,
    pub source: Seq<char>,
    pub message: Seq<char>,
    pub parser_output: Seq<char>,
}

impl View for LogEntry {
    type V = EntryView;

    open spec fn view(&self) -> EntryView {
        EntryView {
            logstring: self.logstring@,
            category: self.category@,
            time_string: self.time_string@,
            time: self.time,
            source: self.source@,
            message: self.message@,
            parser_output: self.parser_output@,
        }
    }
}

pub open spec fn is_upper(c: char) -> bool {
    'A' <= c && c <= 'Z'
}

/// Category, timestamp field and the opening bracket of the source stand where
/// a structured line has them.
pub open spec fn head_matches(s: Seq<char>) -> bool {
    &&& s.len() >= 44
    &&& forall|i: int| 0 <= i < 4 ==> is_upper(#[trigger] s[i])
    &&& s[4] == ' '
    &&& forall|i: int| 5 <= i < 40 ==> #[trigger] s[i] != ' '
    &&& s[40] == ' '
    &&& s[41] == '['
}

/// Position `j` can close the source locator: `]` followed by a space.
pub open spec fn closes_source(s: Seq<char>, j: int) -> bool {
    42 <= j && j + 1 < s.len() && s[j] == ']' && s[j + 1] == ' '
}

/// The last position at or below `hi` that can close the source, or -1.
pub open spec fn last_close(s: Seq<char>, hi: int) -> int
    decreases hi,
{
    if hi < 42 {
        -1
    } else if closes_source(s, hi) {
        hi
    } else {
        last_close(s, hi - 1)
    }
}

/// Where the source locator ends: the greedy choice, the last possible `]`.
pub open spec fn source_close(s: Seq<char>) -> int {
    last_close(s, s.len() - 2)
}

pub open spec fn is_log_line(s: Seq<char>) -> bool {
    head_matches(s) && source_close(s) >= 42
}

pub open spec fn time_field(s: Seq<char>) -> Seq<char> {
    s.subrange(5, 40)
}

/// The decoder's annotation of a structured line.
pub open spec fn info_annotation(
    category: Seq<char>,
    time_text: Seq<char>,
    source: Seq<char>,
    message: Seq<char>,
) -> Seq<char> {
    "c: "@ + category + ", t: "@ + time_text + ", s: "@ + source + ", m: "@ + message
}

/// What a structured line decodes to.
pub open spec fn decode_spec(s: Seq<char>) -> Option<EntryView> {
    if is_log_line(s) {
        let j = source_close(s);
        let time = stamp_of(rfc3339_instant(time_field(s)));
        let category = s.subrange(0, 4);
        let source = s.subrange(41, j + 1);
        let message = s.subrange(j + 2, s.len() as int);
        let time_text = if time is Some { time_field(s) } else { "None"@ };
        Some(
            EntryView {
                logstring: s,
                category,
                time_string: time_field(s),
                time,
                source,
                message,
                parser_output: info_annotation(category, time_text, source, message),
            },
        )
    } else {
        None
    }
}

impl LogEntry {
    /// Decodes a structured line; any other line, the empty one included,
    /// decodes to `None`. The result depends on the line alone.
    pub fn decode(line: &str) -> (r: Option<LogEntry>)
        ensures
            match r {
                Some(e) => decode_spec(line@) == Some(e@),
                None => decode_spec(line@) is None,
            },
    {
        if line.unicode_len() == 0 {
            return None;
        }
        LogEntry::parse_info_line(line)
    }

    fn parse_info_line(line: &str) -> (r: Option<LogEntry>)
        ensures
            match r {
                Some(e) => decode_spec(line@) == Some(e@),
                None => decode_spec(line@) is None,
            },
    {
        let s = chars_of(line);
        let n = s.len();
        if n < 44 {
            return None;
        }
        let mut i: usize = 0;
        while i < 4
            invariant
                i <= 4,
                s@ == line@,
                n == s@.len(),
                n >= 44,
                forall|k: int| 0 <= k < i ==> is_upper(#[trigger] s@[k]),
            decreases 4 - i,
        {
            if !('A' <= s[i] && s[i] <= 'Z') {
                return None;
            }
            i += 1;
        }
        if s[4] != ' ' {
            return None;
        }
        i = 5;
        while i < 40
            invariant
                5 <= i <= 40,
                s@ == line@,
                n == s@.len(),
                n >= 44,
                forall|k: int| 5 <= k < i ==> #[trigger] s@[k] != ' ',
            decreases 40 - i,
        {
            if s[i] == ' ' {
                return None;
            }
            i += 1;
        }
        if s[40] != ' ' || s[41] != '[' {
            return None;
        }
        assert(head_matches(line@));
        let mut j: usize = n - 2;
        while j >= 42 && !(s[j] == ']' && s[j + 1] == ' ')
            invariant
                41 <= j <= n - 2,
                s@ == line@,
                n == s@.len(),
                source_close(s@) == last_close(s@, j as int),
            decreases j,
        {
            j -= 1;
        }
        if j < 42 {
            return None;
        }
        let category = substring(line, 0, 4);
        let time_string = substring(line, 5, 40);
        let source = substring(line, 41, j + 1);
        let message = substring(line, j + 2, n);
        let time = parse_rfc3339(time_string.as_str());
        let mut parser_output = String::from_str("c: ");
        parser_output.append(category.as_str());
        parser_output.append(", t: ");
        match time {
            Some(_) => parser_output.append(time_string.as_str()),
            None => parser_output.append("None"),
        }
        parser_output.append(", s: ");
        parser_output.append(source.as_str());
        parser_output.append(", m: ");
        parser_output.append(message.as_str());
        let e = LogEntry {
            logstring: String::from_str(line),
            category,
            time_string,
            time,
            source,
            message,
            parser_output,
        };
        assert(e@.parser_output =~= decode_spec(line@).unwrap().parser_output);
        assert(e@ == decode_spec(line@).unwrap());
        Some(e)
    }
}

/// A structured line whose timestamp field is not a valid RFC 3339 date and
/// time still decodes, with its category, source and message, and no timestamp.
pub proof fn lemma_malformed_time_still_decodes(s: Seq<char>)
    requires
        is_log_line(s),
        rfc3339_instant(time_field(s)) is None,
    ensures
        decode_spec(s) is Some,
        decode_spec(s).unwrap().time is None,
        decode_spec(s).unwrap().category == s.subrange(0, 4),
        decode_spec(s).unwrap().source == s.subrange(41, source_close(s) + 1),
        decode_spec(s).unwrap().message == s.subrange(source_close(s) + 2, s.len() as int),
{
}

} // verus!
