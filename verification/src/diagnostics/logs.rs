//! A bounded store of the proxy's own log lines, and how they are shown.

use crate::recent::{keep_recent, last_n};
use crate::text;
use std::collections::VecDeque;
use vstd::prelude::*;

verus! {

broadcast use vstd::std_specs::vecdeque::group_vec_dequeue_axioms;

/// How many lines a store keeps unless told otherwise.
pub const DEFAULT_MAX_LOG_LINES: usize = 2000;

/// The severity of a log line.
#[derive(Debug, Clone, Copy, PartialEq, Eq, Structural)]
pub enum TlscopeLogLevel {
    Error,
    Warn,
    Info,
    Debug,
    Trace,
}

/// The name of a log level.
pub open spec fn level_label(l: TlscopeLogLevel) -> Seq<char> {
    match l {
        TlscopeLogLevel::Error => "ERROR"@,
        TlscopeLogLevel::Warn => "WARN"@,
        TlscopeLogLevel::Info => "INFO"@,
        TlscopeLogLevel::Debug => "DEBUG"@,
        TlscopeLogLevel::Trace => "TRACE"@,
    }
}

impl TlscopeLogLevel {
    /// The level's name in upper case.
    pub fn label(self) -> (r: &'static str)
        ensures
            r@ == level_label(self),
    {
        match self {
            TlscopeLogLevel::Error => "ERROR",
            TlscopeLogLevel::Warn => "WARN",
            TlscopeLogLevel::Info => "INFO",
            TlscopeLogLevel::Debug => "DEBUG",
            TlscopeLogLevel::Trace => "TRACE",
        }
    }
}

/// One log line: its level, the module that wrote it and its text.
#[derive(Debug, Clone, PartialEq, Eq)]
pub struct TlscopeLogLine {
    pub level: TlscopeLogLevel,
    pub target: String,
    pub text: String,
}

/// The model of a log line.
pub struct LogLineModel {
    pub level: TlscopeLogLevel,
    pub target: Seq<char>,
    pub text: Seq<char>,
}

impl View for TlscopeLogLine {
    type V = LogLineModel;

    open spec fn view(&self) -> LogLineModel {
        LogLineModel { level: self.level, target: self.target@, text: self.text@ }
    }
}

/// The models of log lines.
pub open spec fn log_lines_view(v: Seq<TlscopeLogLine>) -> Seq<LogLineModel> {
    v.map_values(|l: TlscopeLogLine| l@)
}

impl TlscopeLogLine {
    fn copy(&self) -> (r: Self)
        ensures
            r@ == self@,
    {
        TlscopeLogLine {
            level: self.level,
            target: text::to_owned(self.target.as_str()),
            text: text::to_owned(self.text.as_str()),
        }
    }
}

/// The lines a store holds at one moment, with how many were dropped and written.
#[derive(Debug, Clone)]
pub struct TlscopeLogSnapshot {
    pub lines: Vec<TlscopeLogLine>,
    pub dropped: usize,
    pub total: usize,
}

impl Default for TlscopeLogSnapshot {
    fn default() -> (r: Self)
        ensures
            r.lines@.len() == 0,
            r.dropped == 0,
            r.total == 0,
    {
        TlscopeLogSnapshot { lines: Vec::new(), dropped: 0, total: 0 }
    }
}

/// A line as the clipboard shows it: `[LEVEL target] text`.
pub open spec fn clipboard_line(l: LogLineModel) -> Seq<char> {
    "["@ + level_label(l.level) + " "@ + l.target + "] "@ + l.text
}

/// The clipboard text of a snapshot: a note on dropped lines, if any, then the lines,
/// one per line.
pub open spec fn clipboard_of(lines: Seq<LogLineModel>, dropped: nat) -> Seq<char> {
    let note = if dropped > 0 {
        "["@ + text::decimal(dropped) + " older TLScope log lines dropped]\n"@
    } else {
        Seq::empty()
    };
    note + text::join(lines.map_values(|l: LogLineModel| clipboard_line(l)), "\n"@)
}

impl TlscopeLogSnapshot {
    /// The snapshot as text for the clipboard.
    pub fn clipboard_text(&self) -> (r: String)
        ensures
            r@ == clipboard_of(log_lines_view(self.lines@), self.dropped as nat),
    {
        let mut out = String::new();
        if self.dropped > 0 {
            text::push_str(&mut out, "[");
            text::push_decimal(&mut out, self.dropped as u64);
            text::push_str(&mut out, " older TLScope log lines dropped]\n");
        }
        let ghost note = out@;
        proof {
            reveal_strlit("[");
            reveal_strlit(" older TLScope log lines dropped]\n");
            if self.dropped > 0 {
                assert(note =~= "["@ + text::decimal(self.dropped as nat)
                    + " older TLScope log lines dropped]\n"@);
            } else {
                assert(note =~= Seq::<char>::empty());
            }
        }
        let ghost parts = log_lines_view(self.lines@).map_values(|l: LogLineModel| clipboard_line(l));
        let mut i: usize = 0;
        while i < self.lines.len()
            invariant
                0 <= i <= self.lines@.len(),
                parts == log_lines_view(self.lines@).map_values(|l: LogLineModel| clipboard_line(l)),
                out@ == note + text::join(parts.take(i as int), "\n"@),
            decreases self.lines.len() - i,
        {
            let ghost before = out@;
            if i > 0 {
                text::push_str(&mut out, "\n");
            }
            let line = &self.lines[i];
            text::push_str(&mut out, "[");
            text::push_str(&mut out, line.level.label());
            text::push_str(&mut out, " ");
            text::push_str(&mut out, line.target.as_str());
            text::push_str(&mut out, "] ");
            text::push_str(&mut out, line.text.as_str());
            proof {
                reveal_strlit("\n");
                reveal_strlit("[");
                reveal_strlit(" ");
                reveal_strlit("] ");
                assert(parts.take(i + 1) =~= parts.take(i as int).push(parts[i as int]));
                text::lemma_join_push(parts.take(i as int), "\n"@, parts[i as int]);
                assert(parts[i as int] == clipboard_line(line@));
                if i > 0 {
                    assert(out@ =~= note + (text::join(parts.take(i as int), "\n"@) + "\n"@
                        + parts[i as int]));
                } else {
                    assert(parts.take(0) =~= Seq::<Seq<char>>::empty());
                    assert(out@ =~= note + parts[i as int]);
                }
            }
            i = i + 1;
        }
        proof {
            assert(parts.take(self.lines@.len() as int) =~= parts);
        }
        out
    }
}

/// The model of a log store: the lines it holds, how many it keeps at most, how
/// many it dropped and how many it was given.
pub struct LogStoreModel {
    pub lines: Seq<LogLineModel>,
    pub max_lines: nat,
    pub dropped: nat,
    pub total: nat,
}

/// Keeps the most recent log lines, up to a limit, and counts the dropped ones.
#[derive(Debug, Clone)]
pub struct TlscopeLogStore {
    lines: VecDeque<TlscopeLogLine>,
    max_lines: usize,
    dropped: usize,
    total: usize,
}

impl View for TlscopeLogStore {
    type V = LogStoreModel;

    closed spec fn view(&self) -> LogStoreModel {
        LogStoreModel {
            lines: log_lines_view(self.lines@),
            max_lines: self.max_lines as nat,
            dropped: self.dropped as nat,
            total: self.total as nat,
        }
    }
}

/// A store never holds more lines than its limit, and every line it was given is
/// either held or counted as dropped.
pub open spec fn log_store_wf(m: LogStoreModel) -> bool {
    &&& m.lines.len() <= m.max_lines
    &&& m.dropped + m.lines.len() == m.total
}

impl TlscopeLogStore {
    /// An empty store that keeps at most `max_lines` lines.
    pub fn new(max_lines: usize) -> (r: Self)
        ensures
            log_store_wf(r@),
            r@.lines == Seq::<LogLineModel>::empty(),
            r@.max_lines == max_lines,
            r@.dropped == 0,
            r@.total == 0,
    {
        let cap = if max_lines < 1024 {
            max_lines
        } else {
            1024
        };
        let r = TlscopeLogStore { lines: VecDeque::with_capacity(cap), max_lines, dropped: 0, total: 0 };
        assert(r@.lines =~= Seq::<LogLineModel>::empty());
        r
    }

    /// Adds a line; a full store drops its oldest line first, and a store that keeps
    /// no line only counts it.
    pub fn push(&mut self, level: TlscopeLogLevel, target: String, text: String)
        requires
            log_store_wf(old(self)@),
            old(self)@.total < usize::MAX,
        ensures
            log_store_wf(final(self)@),
            final(self)@.lines == keep_recent(
                old(self)@.lines,
                old(self)@.max_lines,
                LogLineModel { level, target: target@, text: text@ },
            ),
            final(self)@.max_lines == old(self)@.max_lines,
            final(self)@.total == old(self)@.total + 1,
            final(self)@.dropped == old(self)@.dropped + (if old(self)@.max_lines == 0
                || old(self)@.lines.len() == old(self)@.max_lines {
                1int
            } else {
                0int
            }),
    {
        let ghost x = LogLineModel { level, target: target@, text: text@ };
        if self.max_lines == 0 {
            self.dropped = self.dropped + 1;
            self.total = self.total + 1;
            return;
        }
        let ghost before = self.lines@;
        if self.lines.len() == self.max_lines {
            let _ = self.lines.pop_front();
            self.dropped = self.dropped + 1;
        }
        let ghost mid = self.lines@;
        self.lines.push_back(TlscopeLogLine { level, target, text });
        self.total = self.total + 1;
        proof {
            if before.len() == self.max_lines {
                assert(log_lines_view(mid) =~= log_lines_view(before).drop_first());
            } else {
                assert(mid == before);
            }
            assert(log_lines_view(self.lines@) =~= log_lines_view(mid).push(x));
        }
    }

    /// How many lines were ever pushed.
    pub fn total(&self) -> (r: usize)
        ensures
            r == self@.total,
    {
        self.total
    }

    /// A copy of the lines held and the counters.
    pub fn snapshot(&self) -> (r: TlscopeLogSnapshot)
        ensures
            log_lines_view(r.lines@) == self@.lines,
            r.dropped == self@.dropped,
            r.total == self@.total,
    {
        let mut lines: Vec<TlscopeLogLine> = Vec::new();
        let mut i: usize = 0;
        while i < self.lines.len()
            invariant
                0 <= i <= self.lines@.len(),
                log_lines_view(lines@) =~= log_lines_view(self.lines@).take(i as int),
            decreases self.lines.len() - i,
        {
            let ghost before = lines@;
            let line = self.lines[i].copy();
            lines.push(line);
            proof {
                assert(log_lines_view(lines@) =~= log_lines_view(before).push(self.lines@[i as int]@));
                assert(log_lines_view(self.lines@).take(i + 1) =~= log_lines_view(self.lines@).take(
                    i as int,
                ).push(self.lines@[i as int]@));
            }
            i = i + 1;
        }
        proof {
            assert(log_lines_view(self.lines@).take(self.lines@.len() as int) =~= log_lines_view(self.lines@));
        }
        TlscopeLogSnapshot { lines, dropped: self.dropped, total: self.total }
    }
}

impl Default for TlscopeLogStore {
    fn default() -> (r: Self)
        ensures
            log_store_wf(r@),
            r@.lines == Seq::<LogLineModel>::empty(),
            r@.max_lines == DEFAULT_MAX_LOG_LINES,
            r@.dropped == 0,
            r@.total == 0,
    {
        TlscopeLogStore::new(DEFAULT_MAX_LOG_LINES)
    }
}

/// Whether a log target belongs to this program: `tlscope` or `TLScope`, or a module
/// under one of them.
pub open spec fn is_own_target(t: Seq<char>) -> bool {
    t == "tlscope"@ || text::starts_with(t, "tlscope::"@) || t == "TLScope"@ || text::starts_with(
        t,
        "TLScope::"@,
    )
}

/// Whether a log target belongs to this program.
pub fn is_tlscope_target(target: &str) -> (r: bool)
    ensures
        r == is_own_target(target@),
{
    text::str_eq(target, "tlscope") || text::has_prefix(target, "tlscope::") || text::str_eq(
        target,
        "TLScope",
    ) || text::has_prefix(target, "TLScope::")
}

/// A target without its leading `tlscope::` or `TLScope::`.
pub open spec fn short_target_of(t: Seq<char>) -> Seq<char> {
    if text::starts_with(t, "tlscope::"@) {
        t.skip(9)
    } else if text::starts_with(t, "TLScope::"@) {
        t.skip(9)
    } else {
        t
    }
}

/// A target without its leading `tlscope::` or `TLScope::`.
pub fn short_target(target: &str) -> (r: String)
    ensures
        r@ == short_target_of(target@),
{
    proof {
        reveal_strlit("tlscope::");
        reveal_strlit("TLScope::");
    }
    if text::has_prefix(target, "tlscope::") || text::has_prefix(target, "TLScope::") {
        let v = text::chars_of(target);
        text::string_of(&v, 9, v.len())
    } else {
        text::to_owned(target)
    }
}

/// The text of a log event being collected: its message and its other fields.
pub struct LogEventText {
    pub message: Option<String>,
    pub fields: Vec<String>,
}

/// A field as it is listed after the message: `name=value`.
pub open spec fn field_text(name: Seq<char>, value: Seq<char>) -> Seq<char> {
    name + "="@ + value
}

/// The text of an event: the message, then the fields separated by spaces, or
/// `event` when there is neither.
pub open spec fn event_text(message: Option<Seq<char>>, fields: Seq<Seq<char>>) -> Seq<char> {
    let m = match message {
        Some(m) => m,
        None => Seq::empty(),
    };
    let t = if fields.len() > 0 {
        if m.len() > 0 {
            m + " "@ + text::join(fields, " "@)
        } else {
            text::join(fields, " "@)
        }
    } else {
        m
    };
    if t.len() == 0 {
        "event"@
    } else {
        t
    }
}

impl LogEventText {
    /// Nothing recorded yet.
    pub fn new() -> (r: Self)
        ensures
            r.message is None,
            r.fields@.len() == 0,
    {
        LogEventText { message: None, fields: Vec::new() }
    }

    /// Records a field: `message` becomes the message, any other is listed as
    /// `name=value`.
    pub fn record_value(&mut self, name: &str, value: String)
        ensures
            name@ == "message"@ ==> final(self).message == Some(value) && final(self).fields
                == old(self).fields,
            name@ != "message"@ ==> final(self).message == old(self).message && text::views(
                final(self).fields@,
            ) == text::views(old(self).fields@).push(field_text(name@, value@)),
    {
        if text::str_eq(name, "message") {
            self.message = Some(value);
        } else {
            let mut f = text::to_owned(name);
            text::push_str(&mut f, "=");
            text::push_str(&mut f, value.as_str());
            proof {
                reveal_strlit("=");
            }
            let ghost before = self.fields@;
            self.fields.push(f);
            proof {
                assert(text::views(self.fields@) =~= text::views(before).push(field_text(name@, value@)));
            }
        }
    }

    /// The event's text.
    pub fn finish(self) -> (r: String)
        ensures
            r@ == event_text(
                match self.message {
                    Some(m) => Some(m@),
                    None => None,
                },
                text::views(self.fields@),
            ),
    {
        let mut t = match self.message {
            Some(m) => m,
            None => String::new(),
        };
        let ghost m = t@;
        let ghost parts = text::views(self.fields@);
        if self.fields.len() > 0 {
            if !t.as_str().is_empty() {
                text::push_str(&mut t, " ");
            }
            let ghost start = t@;
            let mut i: usize = 0;
            while i < self.fields.len()
                invariant
                    0 <= i <= self.fields@.len(),
                    parts == text::views(self.fields@),
                    t@ == start + text::join(parts.take(i as int), " "@),
                decreases self.fields.len() - i,
            {
                if i > 0 {
                    text::push_str(&mut t, " ");
                }
                text::push_str(&mut t, self.fields[i].as_str());
                proof {
                    reveal_strlit(" ");
                    assert(parts.take(i + 1) =~= parts.take(i as int).push(parts[i as int]));
                    text::lemma_join_push(parts.take(i as int), " "@, parts[i as int]);
                    if i == 0 {
                        assert(parts.take(0) =~= Seq::<Seq<char>>::empty());
                    }
                }
                i = i + 1;
            }
            proof {
                reveal_strlit(" ");
                assert(parts.take(self.fields@.len() as int) =~= parts);
            }
        }
        if t.as_str().is_empty() {
            proof {
                reveal_strlit("event");
            }
            return text::to_owned("event");
        }
        t
    }
}

/// A store that starts empty and is given lines one at a time holds the last
/// `max_lines` of them: starting from no lines, each push keeps that so.
pub proof fn lemma_store_keeps_last_lines(all: Seq<LogLineModel>, max: nat, x: LogLineModel)
    ensures
        last_n(Seq::<LogLineModel>::empty(), max) == Seq::<LogLineModel>::empty(),
        keep_recent(last_n(all, max), max, x) == last_n(all.push(x), max),
{
    crate::recent::lemma_keep_recent_is_last_n(all, max, x);
}

/// What a push does to a store, read through its snapshots before (`a`) and after
/// (`b`): the total grows by one, the lines become the last `k` of the old lines and
/// the new one (`k` one more than held, capped at the limit), every line dropped is
/// counted, and the new line is last unless the store keeps none.
pub proof fn lemma_log_push_keeps_recent(a: LogStoreModel, b: LogStoreModel, x: LogLineModel)
    requires
        log_store_wf(a),
        b.lines == keep_recent(a.lines, a.max_lines, x),
        b.max_lines == a.max_lines,
        b.total == a.total + 1,
        b.dropped == a.dropped + (if a.max_lines == 0 || a.lines.len() == a.max_lines {
            1int
        } else {
            0int
        }),
    ensures
        ({
            let k: int = if a.lines.len() + 1 < a.max_lines { a.lines.len() + 1 as int } else { a.max_lines as int };
            &&& b.total == a.total + 1
            &&& b.lines == a.lines.push(x).skip(a.lines.len() + 1 - k)
            &&& b.lines.len() == k
            &&& b.dropped == a.dropped + (a.lines.len() + 1 - k)
            &&& (a.max_lines > 0 ==> b.lines.last() == x)
            &&& (a.max_lines == 0 ==> b.lines.len() == 0)
            &&& log_store_wf(b)
        }),
{
    crate::recent::lemma_keep_recent_shape(a.lines, a.max_lines, x);
}

} // verus!
