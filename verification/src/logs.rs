//! The log ring shown by the desktop UI: the most recent log lines, each
//! with a sequence number, oldest first, at most [`RING_CAPACITY`] of them.

use vstd::prelude::*;
use crate::text::owned;

verus! {

/// How many log lines are kept for a UI that opens late.
pub const RING_CAPACITY: usize = 2048;

/// The level of a log event.
#[derive(Debug, Clone, Copy, PartialEq, Eq)]
pub enum LogLevel {
    Trace,
    Debug,
    Info,
    Warn,
    Error,
}

pub open spec fn level_name(level: LogLevel) -> Seq<char> {
    match level {
        LogLevel::Trace => "TRACE"@,
        LogLevel::Debug => "DEBUG"@,
        LogLevel::Info => "INFO"@,
        LogLevel::Warn => "WARN"@,
        LogLevel::Error => "ERROR"@,
    }
}

/// The display name of a level.
pub fn level_str(level: LogLevel) -> (r: &'static str)
    ensures
        r@ == level_name(level),
{
    match level {
        LogLevel::Trace => "TRACE",
        LogLevel::Debug => "DEBUG",
        LogLevel::Info => "INFO",
        LogLevel::Warn => "WARN",
        LogLevel::Error => "ERROR",
    }
}

/// The text of an event: its message, then each field as `key=value`,
/// separated by single spaces.
pub open spec fn event_message(message: Seq<char>, fields: Seq<(Seq<char>, Seq<char>)>) -> Seq<char>
    decreases fields.len(),
{
    if fields.len() == 0 {
        message
    } else {
        let before = event_message(message, fields.drop_last());
        let sep = if before.len() == 0 {
            Seq::<char>::empty()
        } else {
            " "@
        };
        before + sep + fields.last().0 + "="@ + fields.last().1
    }
}

pub open spec fn pairs_view(v: Seq<(String, String)>) -> Seq<(Seq<char>, Seq<char>)> {
    v.map_values(|p: (String, String)| (p.0@, p.1@))
}

/// The text of an event with its fields (see [`event_message`]).
pub fn format_event_message(message: &str, fields: &Vec<(String, String)>) -> (r: String)
    ensures
        r@ == event_message(message@, pairs_view(fields@)),
{
    let ghost fv = pairs_view(fields@);
    let mut out = owned(message);
    let mut i: usize = 0;
    while i < fields.len()
        invariant
            i <= fields@.len(),
            fv == pairs_view(fields@),
            out@ == event_message(message@, fv.take(i as int)),
        decreases fields.len() - i,
    {
        assert(fv.take(i + 1).drop_last() =~= fv.take(i as int));
        assert(fv.take(i + 1).last() == fv[i as int]);
        if out.as_str().unicode_len() > 0 {
            out.append(" ");
        } else {
            assert(out@ + Seq::<char>::empty() =~= out@);
        }
        out.append(fields[i].0.as_str());
        out.append("=");
        out.append(fields[i].1.as_str());
        i = i + 1;
    }
    assert(fv.take(fv.len() as int) =~= fv);
    out
}

/// One captured log event.
#[derive(Debug, Clone)]
pub struct LogLine {
    /// Increasing sequence number given by the ring.
    pub seq: u64,
    /// Wall-clock time in milliseconds since the Unix epoch.
    pub ts_millis: i64,
    /// `TRACE`, `DEBUG`, `INFO`, `WARN` or `ERROR`.
    pub level: String,
    /// The event's target (typically a module path).
    pub target: String,
    /// The message followed by the event's fields.
    pub message: String,
}

pub struct LogLineV {
    pub seq: u64,
    pub ts_millis: i64,
    pub level: Seq<char>,
    pub target: Seq<char>,
    pub message: Seq<char>,
}

impl View for LogLine {
    type V = LogLineV;

    open spec fn view(&self) -> LogLineV {
        LogLineV {
            seq: self.seq,
            ts_millis: self.ts_millis,
            level: self.level@,
            target: self.target@,
            message: self.message@,
        }
    }
}

impl LogLine {
    /// A copy of this line.
    pub fn duplicate(&self) -> (r: LogLine)
        ensures
            r@ == self@,
    {
        LogLine {
            seq: self.seq,
            ts_millis: self.ts_millis,
            level: self.level.clone(),
            target: self.target.clone(),
            message: self.message.clone(),
        }
    }
}

pub open spec fn lines_view(v: Seq<LogLine>) -> Seq<LogLineV> {
    v.map_values(|l: LogLine| l@)
}

/// The retained lines and the next sequence number.
pub struct LogRing {
    pub items: Vec<LogLine>,
    pub next_seq: u64,
}

/// The lines after one more: the oldest is dropped when the ring is full.
pub open spec fn pushed_lines(items: Seq<LogLineV>, line: LogLineV) -> Seq<LogLineV> {
    if items.len() >= RING_CAPACITY {
        items.drop_first().push(line)
    } else {
        items.push(line)
    }
}

impl LogRing {
    pub open spec fn wf(&self) -> bool {
        self.items@.len() <= RING_CAPACITY
    }

    /// An empty ring whose first line gets sequence number 1.
    pub fn new() -> (r: LogRing)
        ensures
            r.wf(),
            r.items@.len() == 0,
            r.next_seq == 1,
    {
        LogRing { items: Vec::new(), next_seq: 1 }
    }

    /// Records one event and returns the line it became: the next sequence
    /// number (which then advances, wrapping around), the given time, level,
    /// target and text. A full ring drops its oldest line.
    pub fn push(&mut self, ts_millis: i64, level: LogLevel, target: &str, message: &str) -> (r: LogLine)
        requires
            old(self).wf(),
        ensures
            final(self).wf(),
            r@ == (LogLineV {
                seq: old(self).next_seq,
                ts_millis,
                level: level_name(level),
                target: target@,
                message: message@,
            }),
            final(self).next_seq == old(self).next_seq.wrapping_add(1),
            lines_view(final(self).items@) == pushed_lines(lines_view(old(self).items@), r@),
    {
        let seq = self.next_seq;
        self.next_seq = self.next_seq.wrapping_add(1);
        let line = LogLine {
            seq,
            ts_millis,
            level: owned(level_str(level)),
            target: owned(target),
            message: owned(message),
        };
        let ghost before = lines_view(self.items@);
        if self.items.len() == RING_CAPACITY {
            self.items.remove(0);
            assert(lines_view(self.items@) =~= before.drop_first());
        }
        let ghost mid = lines_view(self.items@);
        let copy = line.duplicate();
        self.items.push(line);
        assert(lines_view(self.items@) =~= mid.push(copy@));
        copy
    }

    /// The retained lines, oldest first.
    pub fn snapshot(&self) -> (r: Vec<LogLine>)
        ensures
            lines_view(r@) == lines_view(self.items@),
    {
        let mut out: Vec<LogLine> = Vec::new();
        let mut i: usize = 0;
        while i < self.items.len()
            invariant
                i <= self.items@.len(),
                lines_view(out@) == lines_view(self.items@).take(i as int),
            decreases self.items.len() - i,
        {
            let ghost before = out@;
            let line = self.items[i].duplicate();
            out.push(line);
            assert(lines_view(out@) =~= lines_view(before).push(line@));
            assert(line@ == lines_view(self.items@)[i as int]);
            assert(lines_view(out@) =~= lines_view(self.items@).take(i + 1));
            i = i + 1;
        }
        assert(lines_view(self.items@).take(self.items@.len() as int) =~= lines_view(self.items@));
        out
    }

    /// Drops every retained line; numbering goes on.
    pub fn clear(&mut self)
        ensures
            final(self).wf(),
            final(self).items@.len() == 0,
            final(self).next_seq == old(self).next_seq,
    {
        self.items = Vec::new();
    }
}

/// What a ring holds after the lines `lines` were recorded, from a new
/// ring: the next sequence number follows the last line, the ring holds the
/// last `min(n, RING_CAPACITY)` lines, oldest first, and the `i`-th line
/// recorded carries sequence number `i + 1`.
pub open spec fn ring_holds(items: Seq<LogLineV>, next_seq: u64, lines: Seq<LogLineV>) -> bool {
    let n = lines.len() as int;
    let start = if n > RING_CAPACITY { n - RING_CAPACITY } else { 0 };
    &&& next_seq == n + 1
    &&& items == lines.subrange(start, n)
    &&& forall|i: int| 0 <= i < n ==> #[trigger] lines[i].seq == i + 1
}

/// A new ring holds what no line recorded leaves.
pub proof fn lemma_ring_holds_new()
    ensures
        ring_holds(Seq::empty(), 1, Seq::empty()),
{
    assert(Seq::<LogLineV>::empty().subrange(0, 0) =~= Seq::<LogLineV>::empty());
}

/// Recording one more line (numbered by the ring, as [`LogRing::push`]
/// does) keeps the ring at the last `min(n, RING_CAPACITY)` lines with
/// sequence numbers 1, 2, 3, … for as long as the numbers do not wrap.
pub proof fn lemma_ring_holds_push(items: Seq<LogLineV>, next_seq: u64, lines: Seq<LogLineV>, line: LogLineV)
    requires
        ring_holds(items, next_seq, lines),
        line.seq == next_seq,
        next_seq < u64::MAX,
    ensures
        ring_holds(pushed_lines(items, line), next_seq.wrapping_add(1), lines.push(line)),
{
    let n = lines.len() as int;
    let l2 = lines.push(line);
    assert(next_seq.wrapping_add(1) == next_seq + 1);
    if n >= RING_CAPACITY {
        assert(pushed_lines(items, line) =~= l2.subrange(n + 1 - RING_CAPACITY, n + 1));
    } else {
        assert(pushed_lines(items, line) =~= l2.subrange(0, n + 1));
    }
    assert forall|i: int| 0 <= i < n + 1 implies #[trigger] l2[i].seq == i + 1 by {
        if i < n {
            assert(l2[i] == lines[i]);
        }
    }
}

/// What a new ring holds after the lines `lines` were pushed in order
/// (each push as [`LogRing::push`] states it).
pub open spec fn ring_after(lines: Seq<LogLineV>) -> Seq<LogLineV>
    decreases lines.len(),
{
    if lines.len() == 0 {
        Seq::empty()
    } else {
        pushed_lines(ring_after(lines.drop_last()), lines.last())
    }
}

/// Over a whole run of events from a new ring: when the `i`-th line pushed
/// got sequence number `i + 1` (as the ring numbers them) and the numbers
/// did not wrap, the ring holds exactly the last `min(n, RING_CAPACITY)`
/// lines, oldest first, and the next number is `n + 1`.
pub proof fn lemma_ring_after(lines: Seq<LogLineV>)
    requires
        lines.len() < u64::MAX,
        forall|i: int| 0 <= i < lines.len() ==> #[trigger] lines[i].seq == i + 1,
    ensures
        ring_holds(ring_after(lines), (lines.len() + 1) as u64, lines),
        ring_after(lines) == lines.subrange(
            if lines.len() > RING_CAPACITY {
                lines.len() - RING_CAPACITY
            } else {
                0
            },
            lines.len() as int,
        ),
    decreases lines.len(),
{
    if lines.len() == 0 {
        lemma_ring_holds_new();
        assert(lines =~= Seq::<LogLineV>::empty());
    } else {
        let p = lines.drop_last();
        assert forall|i: int| 0 <= i < p.len() implies #[trigger] p[i].seq == i + 1 by {
            assert(p[i] == lines[i]);
        }
        lemma_ring_after(p);
        lemma_ring_holds_push(ring_after(p), (p.len() + 1) as u64, p, lines.last());
        assert(p.push(lines.last()) =~= lines);
        assert(((p.len() + 1) as u64).wrapping_add(1) == (lines.len() + 1) as u64);
    }
}

/// The ring never holds more than its capacity, and the newest line is
/// always the last one.
pub proof fn lemma_ring_bounded(items: Seq<LogLineV>, line: LogLineV)
    requires
        items.len() <= RING_CAPACITY,
    ensures
        pushed_lines(items, line).len() <= RING_CAPACITY,
        pushed_lines(items, line).len() > 0,
        pushed_lines(items, line).last() == line,
{
}

} // verus!
