//! The log ring buffer: a bounded store of log entries with filtered
//! retrieval and CSV export.

use vstd::prelude::*;
use std::collections::VecDeque;

use crate::clock::now_rfc3339;
use crate::text::contains_chars;
use crate::text::contains_sub;
use crate::text::chars_to_string;
use crate::text::lower_of;
use crate::text::lowercase;
use crate::text::push_all;
use crate::text::push_range;
use crate::text::str_chars;
use crate::uniq::fresh_uuid;

verus! {

/// One log line with its origin.
#[derive(Debug)]
pub struct LogEntry {
    pub id: String,
    /// When the line was recorded, as an RFC 3339 UTC timestamp.
    pub timestamp: String,
    pub level: String,
    pub message: String,
    pub target: String,
    pub file: Option<String>,
    pub line: Option<u32>,
}

/// Mathematical model of a [`LogEntry`].
#[verifier::ext_equal]
pub struct LogRecord {
    pub id: Seq<char>,
    pub timestamp: Seq<char>,
    pub level: Seq<char>,
    pub message: Seq<char>,
    pub target: Seq<char>,
    pub file: Option<Seq<char>>,
    pub line: Option<u32>,
}

impl View for LogEntry {
    type V = LogRecord;

    open spec fn view(&self) -> LogRecord {
        LogRecord {
            id: self.id@,
            timestamp: self.timestamp@,
            level: self.level@,
            message: self.message@,
            target: self.target@,
            file: match self.file {
                Some(f) => Some(f@),
                None => None,
            },
            line: self.line,
        }
    }
}

impl Clone for LogEntry {
    fn clone(&self) -> (res: Self)
        ensures
            res == *self,
    {
        LogEntry {
            id: self.id.clone(),
            timestamp: self.timestamp.clone(),
            level: self.level.clone(),
            message: self.message.clone(),
            target: self.target.clone(),
            file: match &self.file {
                Some(f) => Some(f.clone()),
                None => None,
            },
            line: self.line,
        }
    }
}

/// What a retrieval keeps: by level (exact), by target (substring), by
/// search term (case-folded substring of message or target), and by
/// count.
#[derive(Debug)]
pub struct LogFilter {
    pub level: Option<String>,
    pub target: Option<String>,
    pub search: Option<String>,
    pub limit: Option<usize>,
}

/// Mathematical model of a [`LogFilter`].
#[verifier::ext_equal]
pub struct FilterRecord {
    pub level: Option<Seq<char>>,
    pub target: Option<Seq<char>>,
    pub search: Option<Seq<char>>,
    pub limit: Option<usize>,
}

impl View for LogFilter {
    type V = FilterRecord;

    open spec fn view(&self) -> FilterRecord {
        FilterRecord {
            level: match self.level {
                Some(l) => Some(l@),
                None => None,
            },
            target: match self.target {
                Some(t) => Some(t@),
                None => None,
            },
            search: match self.search {
                Some(s) => Some(s@),
                None => None,
            },
            limit: self.limit,
        }
    }
}

/// Whether one entry passes a filter.
pub open spec fn log_matches(e: LogRecord, f: FilterRecord) -> bool {
    &&& match f.level {
        Some(l) => e.level == l,
        None => true,
    }
    &&& match f.target {
        Some(t) => contains_sub(e.target, t),
        None => true,
    }
    &&& match f.search {
        Some(s) => contains_sub(lower_of(e.message), lower_of(s)) || contains_sub(
            lower_of(e.target),
            lower_of(s),
        ),
        None => true,
    }
}

/// The entries of `q` that pass `f`, oldest first.
pub open spec fn logs_passing(q: Seq<LogRecord>, f: FilterRecord) -> Seq<LogRecord>
    decreases q.len(),
{
    if q.len() == 0 {
        Seq::empty()
    } else {
        let rest = logs_passing(q.drop_last(), f);
        if log_matches(q.last(), f) {
            rest.push(q.last())
        } else {
            rest
        }
    }
}

/// What a retrieval returns: the passing entries, cut to the requested
/// count, newest first.
pub open spec fn logs_selected(q: Seq<LogRecord>, filter: Option<FilterRecord>) -> Seq<LogRecord> {
    match filter {
        None => q.reverse(),
        Some(f) => {
            let passing = logs_passing(q, f);
            let cut = match f.limit {
                Some(l) => if passing.len() <= l {
                    passing
                } else {
                    passing.subrange(0, l as int)
                },
                None => passing,
            };
            cut.reverse()
        },
    }
}

/// The buffer after recording `e` with room for at most `max` entries:
/// the oldest entries beyond the bound are evicted.
pub open spec fn logs_appended(q: Seq<LogRecord>, e: LogRecord, max: nat) -> Seq<LogRecord> {
    let grown = q.push(e);
    if grown.len() <= max {
        grown
    } else {
        grown.subrange(grown.len() - max, grown.len() as int)
    }
}

/// The log store: a bounded ring of entries, oldest first.
pub struct LoggerState {
    logs: VecDeque<LogEntry>,
    max_logs: usize,
}

/// Spec-level state of a [`LoggerState`].
#[verifier::ext_equal]
pub struct LoggerModel {
    pub logs: Seq<LogRecord>,
    pub capacity: usize,
}

impl View for LoggerState {
    type V = LoggerModel;

    closed spec fn view(&self) -> LoggerModel {
        LoggerModel {
            logs: self.logs@.map_values(|e: LogEntry| e@),
            capacity: self.max_logs,
        }
    }
}

impl LoggerState {
    /// The buffer never holds more entries than its capacity.
    pub open spec fn wf(&self) -> bool {
        self@.logs.len() <= self@.capacity
    }

    /// An empty buffer that will keep at most `max_logs` entries.
    pub fn new(max_logs: usize) -> (s: LoggerState)
        ensures
            s.wf(),
            s@.logs.len() == 0,
            s@.capacity == max_logs,
    {
        let s = LoggerState { logs: VecDeque::new(), max_logs };
        proof {
            assert(s@.logs =~= Seq::<LogRecord>::empty());
        }
        s
    }

    /// Appends one entry, evicting the oldest entries when the buffer
    /// would otherwise outgrow its capacity.
    pub fn add_log(&mut self, entry: LogEntry)
        requires
            old(self).wf(),
        ensures
            final(self).wf(),
            final(self)@.logs == logs_appended(old(self)@.logs, entry@, old(self)@.capacity as nat),
            final(self)@.capacity == old(self)@.capacity,
    {
        let ghost q0 = self@.logs;
        self.logs.push_back(entry);
        proof {
            assert(self@.logs =~= q0.push(entry@));
        }
        let ghost grown = self@.logs;
        proof {
            assert(self@.logs =~= grown.subrange(
                grown.len() - self@.logs.len(),
                grown.len() as int,
            ));
        }
        while self.logs.len() > self.max_logs
            invariant
                self@.capacity == old(self)@.capacity,
                grown == q0.push(entry@),
                self@.logs.len() <= grown.len(),
                self@.logs.len() >= self.max_logs || self@.logs.len() == grown.len(),
                self@.logs == grown.subrange(grown.len() - self@.logs.len(), grown.len() as int),
            decreases self.logs.len(),
        {
            let ghost prev = self@.logs;
            let popped = self.logs.pop_front();
            proof {
                assert(popped is Some);
                assert(self@.logs =~= prev.subrange(1, prev.len() as int));
                assert(self@.logs =~= grown.subrange(
                    grown.len() - self@.logs.len(),
                    grown.len() as int,
                ));
            }
        }
        proof {
            if self@.logs.len() == grown.len() {
                assert(self@.logs =~= grown);
            }
            assert(self@.logs == logs_appended(q0, entry@, old(self)@.capacity as nat));
        }
    }

    /// Records a fresh line: a new entry with a random identifier and
    /// the current time, carrying the given level, message and target.
    pub fn record(&mut self, level: String, message: String, target: String)
        requires
            old(self).wf(),
        ensures
            final(self).wf(),
            final(self)@.capacity == old(self)@.capacity,
            exists|id: Seq<char>, ts: Seq<char>|
                final(self)@.logs == #[trigger] logs_appended(
                    old(self)@.logs,
                    (LogRecord {
                        id,
                        timestamp: ts,
                        level: level@,
                        message: message@,
                        target: target@,
                        file: None,
                        line: None,
                    }),
                    old(self)@.capacity as nat,
                ),
    {
        let entry = LogEntry {
            id: fresh_uuid(),
            timestamp: now_rfc3339(),
            level,
            message,
            target,
            file: None,
            line: None,
        };
        let ghost id = entry.id@;
        let ghost ts = entry.timestamp@;
        self.add_log(entry);
    }

    /// Empties the buffer.
    pub fn clear_logs(&mut self)
        ensures
            final(self).wf(),
            final(self)@.logs.len() == 0,
            final(self)@.capacity == old(self)@.capacity,
    {
        self.logs.clear();
        proof {
            assert(self@.logs =~= Seq::<LogRecord>::empty());
        }
    }

    /// The entries that pass the filter, newest first: level must match
    /// exactly, the target must contain the target term, message or
    /// target must contain the search term after case folding, and at
    /// most `limit` of the oldest passing entries are kept.
    pub fn get_logs(&self, filter: Option<LogFilter>) -> (v: Vec<LogEntry>)
        ensures
            v@.map_values(|e: LogEntry| e@) == logs_selected(
                self@.logs,
                match filter {
                    Some(f) => Some(f@),
                    None => None,
                },
            ),
    {
        let mut picked: Vec<LogEntry> = Vec::new();
        match &filter {
            None => {
                let mut i: usize = 0;
                while i < self.logs.len()
                    invariant
                        i <= self@.logs.len(),
                        picked@.len() == i,
                        forall|j: int| 0 <= j < i ==> #[trigger] picked@[j]@ == self@.logs[j],
                    decreases self@.logs.len() - i,
                {
                    picked.push(self.logs[i].clone());
                    i += 1;
                }
            },
            Some(f) => {
                let mut i: usize = 0;
                while i < self.logs.len()
                    invariant
                        i <= self@.logs.len(),
                        picked@.map_values(|e: LogEntry| e@) == logs_passing(
                            self@.logs.subrange(0, i as int),
                            f@,
                        ),
                    decreases self@.logs.len() - i,
                {
                    let keep = log_entry_matches(&self.logs[i], f);
                    proof {
                        assert(self@.logs.subrange(0, i + 1).drop_last() =~= self@.logs.subrange(
                            0,
                            i as int,
                        ));
                        assert(self@.logs.subrange(0, i + 1).last() == self@.logs[i as int]);
                    }
                    if keep {
                        picked.push(self.logs[i].clone());
                        proof {
                            assert(picked@.map_values(|e: LogEntry| e@) =~= logs_passing(
                                self@.logs.subrange(0, i as int),
                                f@,
                            ).push(self@.logs[i as int]));
                        }
                    }
                    i += 1;
                }
                proof {
                    assert(self@.logs.subrange(0, self@.logs.len() as int) =~= self@.logs);
                }
                if let Some(limit) = f.limit {
                    if limit < picked.len() {
                        picked.truncate(limit);
                    }
                }
            },
        }
        // Newest first.
        let mut v: Vec<LogEntry> = Vec::new();
        let mut k = picked.len();
        while k > 0
            invariant
                k <= picked@.len(),
                v@.len() == picked@.len() - k,
                forall|j: int|
                    0 <= j < v@.len() ==> #[trigger] v@[j]@ == picked@[picked@.len() - 1 - j]@,
            decreases k,
        {
            k -= 1;
            v.push(picked[k].clone());
        }
        proof {
            assert(v@.map_values(|e: LogEntry| e@) =~= picked@.map_values(
                |e: LogEntry| e@,
            ).reverse());
            if filter is Some {
                let f = filter->Some_0;
                let passing = logs_passing(self@.logs, f@);
                if f@.limit is Some && (f@.limit->Some_0 as int) < passing.len() {
                    assert(picked@.map_values(|e: LogEntry| e@) =~= passing.subrange(
                        0,
                        f@.limit->Some_0 as int,
                    ));
                }
            } else {
                assert(picked@.map_values(|e: LogEntry| e@) =~= self@.logs);
            }
        }
        v
    }
}

/// Whether one stored entry passes the filter, evaluated as the model
/// says: exact level, substring target, case-folded substring search.
fn log_entry_matches(e: &LogEntry, f: &LogFilter) -> (r: bool)
    ensures
        r == log_matches(e@, f@),
{
    match &f.level {
        Some(l) => {
            if !(e.level == *l) {
                return false;
            }
        },
        None => {},
    }
    match &f.target {
        Some(t) => {
            let hay = str_chars(e.target.as_str());
            let needle = str_chars(t.as_str());
            if !contains_chars(&hay, &needle) {
                return false;
            }
        },
        None => {},
    }
    match &f.search {
        Some(s) => {
            let term = lowercase(s.as_str());
            let term_chars = str_chars(term.as_str());
            let message_low = lowercase(e.message.as_str());
            let message_chars = str_chars(message_low.as_str());
            if !contains_chars(&message_chars, &term_chars) {
                let target_low = lowercase(e.target.as_str());
                let target_chars = str_chars(target_low.as_str());
                if !contains_chars(&target_chars, &term_chars) {
                    return false;
                }
            }
        },
        None => {},
    }
    true
}

/// The CSV header of an export.
pub open spec fn csv_header() -> Seq<char> {
    "timestamp,level,target,message\n"@
}

/// A timestamp as the export displays it: date, a space, the seconds of
/// the day, and the zone name — cut from its RFC 3339 form.
pub open spec fn csv_time(ts: Seq<char>) -> Seq<char> {
    if ts.len() >= 19 {
        ts.subrange(0, 10) + " "@ + ts.subrange(11, 19) + " UTC"@
    } else {
        ts + " UTC"@
    }
}

/// A message as the export embeds it: every quote doubled.
pub open spec fn csv_escaped(s: Seq<char>) -> Seq<char>
    decreases s.len(),
{
    if s.len() == 0 {
        Seq::empty()
    } else {
        csv_escaped(s.drop_last()) + (if s.last() == '"' {
            seq!['"', '"']
        } else {
            seq![s.last()]
        })
    }
}

/// One exported line.
pub open spec fn csv_line(e: LogRecord) -> Seq<char> {
    csv_time(e.timestamp) + ","@ + e.level + ","@ + e.target + ",\""@ + csv_escaped(e.message)
        + "\"\n"@
}

/// A whole export: the header, then one line per entry, in order.
pub open spec fn csv_of(entries: Seq<LogRecord>) -> Seq<char>
    decreases entries.len(),
{
    if entries.len() == 0 {
        csv_header()
    } else {
        csv_of(entries.drop_last()) + csv_line(entries.last())
    }
}

/// Appends the displayed form of `ts` to `out`.
fn push_csv_time(out: &mut Vec<char>, ts: &String)
    ensures
        final(out)@ == old(out)@ + csv_time(ts@),
{
    let chars = str_chars(ts.as_str());
    if chars.len() >= 19 {
        push_range(out, &chars, 0, 10);
        out.push(' ');
        push_range(out, &chars, 11, 19);
        push_str_chars(out, " UTC");
        proof {
            reveal_strlit(" ");
            assert(" "@ =~= seq![' ']);
            assert(old(out)@ + ts@.subrange(0, 10) + seq![' '] + ts@.subrange(11, 19) + " UTC"@
                =~= old(out)@ + csv_time(ts@));
        }
    } else {
        push_all(out, &chars);
        push_str_chars(out, " UTC");
        proof {
            assert(old(out)@ + ts@ + " UTC"@ =~= old(out)@ + csv_time(ts@));
        }
    }
}

/// Appends the characters of a fixed piece to `out`.
fn push_str_chars(out: &mut Vec<char>, piece: &str)
    ensures
        final(out)@ == old(out)@ + piece@,
{
    let chars = str_chars(piece);
    push_all(out, &chars);
}

/// Appends the escaped form of `message` to `out`.
fn push_csv_escaped(out: &mut Vec<char>, message: &String)
    ensures
        final(out)@ == old(out)@ + csv_escaped(message@),
{
    let chars = str_chars(message.as_str());
    let mut i: usize = 0;
    while i < chars.len()
        invariant
            i <= chars@.len(),
            chars@ == message@,
            out@ == old(out)@ + csv_escaped(message@.subrange(0, i as int)),
        decreases chars@.len() - i,
    {
        let c = chars[i];
        proof {
            assert(message@.subrange(0, i + 1).drop_last() =~= message@.subrange(0, i as int));
            assert(message@.subrange(0, i + 1).last() == message@[i as int]);
        }
        if c == '"' {
            out.push('"');
            out.push('"');
            proof {
                assert(out@ =~= old(out)@ + csv_escaped(message@.subrange(0, i + 1)));
            }
        } else {
            out.push(c);
            proof {
                assert(out@ =~= old(out)@ + csv_escaped(message@.subrange(0, i + 1)));
            }
        }
        i += 1;
    }
    proof {
        assert(message@.subrange(0, message@.len() as int) =~= message@);
    }
}

/// Renders entries as CSV, in the given order: a header line, then
/// `timestamp,level,target,"message"` per entry, quotes in the message
/// doubled.
pub fn logs_to_csv(entries: &Vec<LogEntry>) -> (csv: String)
    ensures
        csv@ == csv_of(entries@.map_values(|e: LogEntry| e@)),
{
    let ghost model = entries@.map_values(|e: LogEntry| e@);
    let mut out: Vec<char> = Vec::new();
    push_str_chars(&mut out, "timestamp,level,target,message\n");
    proof {
        assert(out@ =~= csv_of(model.subrange(0, 0)));
    }
    let mut i: usize = 0;
    while i < entries.len()
        invariant
            i <= model.len(),
            model == entries@.map_values(|e: LogEntry| e@),
            out@ == csv_of(model.subrange(0, i as int)),
        decreases model.len() - i,
    {
        let ghost before = out@;
        let e = &entries[i];
        push_csv_time(&mut out, &e.timestamp);
        push_str_chars(&mut out, ",");
        let level_chars = str_chars(e.level.as_str());
        push_all(&mut out, &level_chars);
        push_str_chars(&mut out, ",");
        let target_chars = str_chars(e.target.as_str());
        push_all(&mut out, &target_chars);
        push_str_chars(&mut out, ",\"");
        push_csv_escaped(&mut out, &e.message);
        push_str_chars(&mut out, "\"\n");
        proof {
            assert(model.subrange(0, i + 1).drop_last() =~= model.subrange(0, i as int));
            assert(model.subrange(0, i + 1).last() == model[i as int]);
            assert(out@ =~= before + csv_line(model[i as int]));
            assert(out@ =~= csv_of(model.subrange(0, i + 1)));
        }
        i += 1;
    }
    proof {
        assert(model.subrange(0, model.len() as int) =~= model);
    }
    chars_to_string(&out)
}

} // verus!
