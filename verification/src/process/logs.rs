//! A bounded store of the child process's output lines, and how a raw output line is
//! made fit for display.

use crate::capture::model::{utf8_lossy, utf8_lossy_text};
use crate::recent::keep_recent;
use crate::text;
use std::collections::VecDeque;
use vstd::prelude::*;

verus! {

broadcast use vstd::std_specs::vecdeque::group_vec_dequeue_axioms;

/// How many output lines a store keeps unless told otherwise.
pub const DEFAULT_MAX_OUTPUT_LINES: usize = 2000;

/// Which output of the child a line came from.
#[derive(Debug, Clone, Copy, PartialEq, Eq, Structural)]
pub enum ChildOutputStream {
    Stdout,
    Stderr,
}

/// The name of a child output stream.
pub open spec fn stream_label(s: ChildOutputStream) -> Seq<char> {
    match s {
        ChildOutputStream::Stdout => "stdout"@,
        ChildOutputStream::Stderr => "stderr"@,
    }
}

impl ChildOutputStream {
    /// `stdout` or `stderr`.
    pub fn label(self) -> (r: &'static str)
        ensures
            r@ == stream_label(self),
    {
        match self {
            ChildOutputStream::Stdout => "stdout",
            ChildOutputStream::Stderr => "stderr",
        }
    }
}

/// One line of the child's output.
#[derive(Debug, Clone, PartialEq, Eq)]
pub struct ChildOutputLine {
    pub stream: ChildOutputStream,
    pub text: String,
}

/// The model of a child output line.
pub struct OutputLineModel {
    pub stream: ChildOutputStream,
    pub text: Seq<char>,
}

impl View for ChildOutputLine {
    type V = OutputLineModel;

    open spec fn view(&self) -> OutputLineModel {
        OutputLineModel { stream: self.stream, text: self.text@ }
    }
}

/// The models of child output lines.
pub open spec fn output_lines_view(v: Seq<ChildOutputLine>) -> Seq<OutputLineModel> {
    v.map_values(|l: ChildOutputLine| l@)
}

impl ChildOutputLine {
    fn copy(&self) -> (r: Self)
        ensures
            r@ == self@,
    {
        ChildOutputLine { stream: self.stream, text: text::to_owned(self.text.as_str()) }
    }
}

/// The output lines a store holds at one moment, with the counters.
#[derive(Debug, Clone)]
pub struct ChildLogSnapshot {
    pub lines: Vec<ChildOutputLine>,
    pub dropped: usize,
    pub total: usize,
}

impl Default for ChildLogSnapshot {
    fn default() -> (r: Self)
        ensures
            r.lines@.len() == 0,
            r.dropped == 0,
            r.total == 0,
    {
        ChildLogSnapshot { lines: Vec::new(), dropped: 0, total: 0 }
    }
}

/// A line as the clipboard shows it: `[stream] text`.
pub open spec fn output_clipboard_line(l: OutputLineModel) -> Seq<char> {
    "["@ + stream_label(l.stream) + "] "@ + l.text
}

/// The clipboard text of the child's output: a note on dropped lines, if any, then
/// the lines, one per line.
pub open spec fn output_clipboard_of(lines: Seq<OutputLineModel>, dropped: nat) -> Seq<char> {
    let note = if dropped > 0 {
        "["@ + text::decimal(dropped) + " older process log lines dropped]\n"@
    } else {
        Seq::empty()
    };
    note + text::join(lines.map_values(|l: OutputLineModel| output_clipboard_line(l)), "\n"@)
}

impl ChildLogSnapshot {
    /// The snapshot as text for the clipboard.
    pub fn clipboard_text(&self) -> (r: String)
        ensures
            r@ == output_clipboard_of(output_lines_view(self.lines@), self.dropped as nat),
    {
        let mut out = String::new();
        if self.dropped > 0 {
            text::push_str(&mut out, "[");
            text::push_decimal(&mut out, self.dropped as u64);
            text::push_str(&mut out, " older process log lines dropped]\n");
        }
        let ghost note = out@;
        proof {
            reveal_strlit("[");
            reveal_strlit(" older process log lines dropped]\n");
            if self.dropped > 0 {
                assert(note =~= "["@ + text::decimal(self.dropped as nat)
                    + " older process log lines dropped]\n"@);
            } else {
                assert(note =~= Seq::<char>::empty());
            }
        }
        let ghost parts = output_lines_view(self.lines@).map_values(
            |l: OutputLineModel| output_clipboard_line(l),
        );
        let mut i: usize = 0;
        while i < self.lines.len()
            invariant
                0 <= i <= self.lines@.len(),
                parts == output_lines_view(self.lines@).map_values(
                    |l: OutputLineModel| output_clipboard_line(l),
                ),
                out@ == note + text::join(parts.take(i as int), "\n"@),
            decreases self.lines.len() - i,
        {
            if i > 0 {
                text::push_str(&mut out, "\n");
            }
            let line = &self.lines[i];
            text::push_str(&mut out, "[");
            text::push_str(&mut out, line.stream.label());
            text::push_str(&mut out, "] ");
            text::push_str(&mut out, line.text.as_str());
            proof {
                reveal_strlit("\n");
                reveal_strlit("[");
                reveal_strlit("] ");
                assert(parts.take(i + 1) =~= parts.take(i as int).push(parts[i as int]));
                text::lemma_join_push(parts.take(i as int), "\n"@, parts[i as int]);
                assert(parts[i as int] == output_clipboard_line(line@));
                if i > 0 {
                    assert(out@ =~= note + (text::join(parts.take(i as int), "\n"@) + "\n"@
                        + parts[i as int]));
                } else {
                    assert(parts.take(0) =~= Seq::<Seq<char>>::empty());
                    assert(out@ =~= note + parts[i as int]);
                }
            }
            i = i + 1;
        }
        proof {
            assert(parts.take(self.lines@.len() as int) =~= parts);
        }
        out
    }
}

/// The model of an output store: the lines it holds, its limit and its counters.
pub struct OutputStoreModel {
    pub lines: Seq<OutputLineModel>,
    pub max_lines: nat,
    pub dropped: nat,
    pub total: nat,
}

/// A store never holds more lines than its limit, and every line it was given is
/// either held or counted as dropped.
pub open spec fn output_store_wf(m: OutputStoreModel) -> bool {
    &&& m.lines.len() <= m.max_lines
    &&& m.dropped + m.lines.len() == m.total
}

/// Keeps the most recent output lines of the child, up to a limit.
#[derive(Debug, Clone)]
pub struct ChildLogStore {
    lines: VecDeque<ChildOutputLine>,
    max_lines: usize,
    dropped: usize,
    total: usize,
}

impl View for ChildLogStore {
    type V = OutputStoreModel;

    closed spec fn view(&self) -> OutputStoreModel {
        OutputStoreModel {
            lines: output_lines_view(self.lines@),
            max_lines: self.max_lines as nat,
            dropped: self.dropped as nat,
            total: self.total as nat,
        }
    }
}

impl ChildLogStore {
    /// An empty store that keeps at most `max_lines` lines.
    pub fn new(max_lines: usize) -> (r: Self)
        ensures
            output_store_wf(r@),
            r@.lines == Seq::<OutputLineModel>::empty(),
            r@.max_lines == max_lines,
            r@.dropped == 0,
            r@.total == 0,
    {
        let cap = if max_lines < 1024 {
            max_lines
        } else {
            1024
        };
        let r = ChildLogStore { lines: VecDeque::with_capacity(cap), max_lines, dropped: 0, total: 0 };
        assert(r@.lines =~= Seq::<OutputLineModel>::empty());
        r
    }

    /// Adds a line; a full store drops its oldest line first, and a store that keeps
    /// no line only counts it.
    pub fn push(&mut self, stream: ChildOutputStream, text: String)
        requires
            output_store_wf(old(self)@),
            old(self)@.total < usize::MAX,
        ensures
            output_store_wf(final(self)@),
            final(self)@.lines == keep_recent(
                old(self)@.lines,
                old(self)@.max_lines,
                OutputLineModel { stream, text: text@ },
            ),
            final(self)@.max_lines == old(self)@.max_lines,
            final(self)@.total == old(self)@.total + 1,
            final(self)@.dropped == old(self)@.dropped + (if old(self)@.max_lines == 0
                || old(self)@.lines.len() == old(self)@.max_lines {
                1int
            } else {
                0int
            }),
    {
        let ghost x = OutputLineModel { stream, text: text@ };
        if self.max_lines == 0 {
            self.dropped = self.dropped + 1;
            self.total = self.total + 1;
            return;
        }
        let ghost before = self.lines@;
        if self.lines.len() == self.max_lines {
            let _ = self.lines.pop_front();
            self.dropped = self.dropped + 1;
        }
        let ghost mid = self.lines@;
        self.lines.push_back(ChildOutputLine { stream, text });
        self.total = self.total + 1;
        proof {
            if before.len() == self.max_lines {
                assert(output_lines_view(mid) =~= output_lines_view(before).drop_first());
            } else {
                assert(mid == before);
            }
            assert(output_lines_view(self.lines@) =~= output_lines_view(mid).push(x));
        }
    }

    /// How many lines were ever pushed.
    pub fn total(&self) -> (r: usize)
        ensures
            r == self@.total,
    {
        self.total
    }

    /// A copy of the lines held and the counters.
    pub fn snapshot(&self) -> (r: ChildLogSnapshot)
        ensures
            output_lines_view(r.lines@) == self@.lines,
            r.dropped == self@.dropped,
            r.total == self@.total,
    {
        let mut lines: Vec<ChildOutputLine> = Vec::new();
        let mut i: usize = 0;
        while i < self.lines.len()
            invariant
                0 <= i <= self.lines@.len(),
                output_lines_view(lines@) =~= output_lines_view(self.lines@).take(i as int),
            decreases self.lines.len() - i,
        {
            let ghost before = lines@;
            let line = self.lines[i].copy();
            lines.push(line);
            proof {
                assert(output_lines_view(lines@) =~= output_lines_view(before).push(
                    self.lines@[i as int]@,
                ));
                assert(output_lines_view(self.lines@).take(i + 1) =~= output_lines_view(
                    self.lines@,
                ).take(i as int).push(self.lines@[i as int]@));
            }
            i = i + 1;
        }
        proof {
            assert(output_lines_view(self.lines@).take(self.lines@.len() as int)
                =~= output_lines_view(self.lines@));
        }
        ChildLogSnapshot { lines, dropped: self.dropped, total: self.total }
    }
}

impl Default for ChildLogStore {
    fn default() -> (r: Self)
        ensures
            output_store_wf(r@),
            r@.lines == Seq::<OutputLineModel>::empty(),
            r@.max_lines == DEFAULT_MAX_OUTPUT_LINES,
            r@.dropped == 0,
            r@.total == 0,
    {
        ChildLogStore::new(DEFAULT_MAX_OUTPUT_LINES)
    }
}

// ---------------------------------------------------------------------------
// Cleaning a raw output line
// ---------------------------------------------------------------------------

/// The end of the bytes once trailing `\n` and `\r` bytes are cut off.
pub open spec fn end_without_newlines(b: Seq<u8>, end: int) -> int
    decreases end,
{
    if end > 0 && end <= b.len() && (b[end - 1] == 10u8 || b[end - 1] == 13u8) {
        end_without_newlines(b, end - 1)
    } else {
        end
    }
}

/// How many characters an escape sequence's body takes after `ESC [`: up to and with
/// the first final character in `@`..=`~`, or all that is left.
pub open spec fn csi_body_len(t: Seq<char>) -> nat
    decreases t.len(),
{
    if t.len() == 0 {
        0
    } else if '@' <= t[0] && t[0] <= '~' {
        1
    } else {
        1 + csi_body_len(t.drop_first())
    }
}

/// The text with every `ESC [ ... final` sequence taken out.
pub open spec fn strip_ansi(s: Seq<char>) -> Seq<char>
    decreases s.len(),
{
    if s.len() == 0 {
        Seq::empty()
    } else if s[0] == '\u{1b}' && s.len() > 1 && s[1] == '[' {
        let rest = s.skip(2);
        if csi_body_len(rest) <= rest.len() {
            strip_ansi(rest.skip(csi_body_len(rest) as int))
        } else {
            Seq::empty()
        }
    } else {
        seq![s[0]] + strip_ansi(s.drop_first())
    }
}

proof fn lemma_csi_body_len(t: Seq<char>)
    ensures
        csi_body_len(t) <= t.len(),
    decreases t.len(),
{
    if t.len() > 0 && !('@' <= t[0] && t[0] <= '~') {
        lemma_csi_body_len(t.drop_first());
    }
}

/// A character as it is displayed: tabs and non-control characters stay, other
/// control characters become spaces.
pub open spec fn display_char(c: char) -> char {
    if c == '\t' || !text::is_control(c) {
        c
    } else {
        ' '
    }
}

/// The text cut to `max_chars` characters, each shown as `display_char` does, and
/// `...` after it when characters were cut off.
pub open spec fn shown_output(s: Seq<char>, max_chars: nat) -> Seq<char> {
    if s.len() > max_chars {
        s.take(max_chars as int).map_values(|c: char| display_char(c)) + "..."@
    } else {
        s.map_values(|c: char| display_char(c))
    }
}

/// The text with its escape sequences taken out.
pub fn strip_ansi_sequences(input: &str) -> (r: String)
    ensures
        r@ == strip_ansi(input@),
{
    let v = text::chars_of(input);
    let mut out = String::new();
    let mut i: usize = 0;
    proof {
        assert(v@.skip(0) =~= v@);
        assert(out@ + strip_ansi(v@) =~= strip_ansi(v@));
    }
    while i < v.len()
        invariant
            0 <= i <= v@.len(),
            v@ == input@,
            out@ + strip_ansi(v@.skip(i as int)) == strip_ansi(v@),
        decreases v.len() - i,
    {
        let ghost s = v@.skip(i as int);
        if v[i] == '\u{1b}' && i + 1 < v.len() && v[i + 1] == '[' {
            let mut j = i + 2;
            let ghost rest = v@.skip(i + 2);
            proof {
                assert(s.skip(2) =~= rest);
                lemma_csi_body_len(rest);
            }
            while j < v.len() && !('@' <= v[j] && v[j] <= '~')
                invariant
                    i + 2 <= j <= v@.len(),
                    rest == v@.skip(i + 2),
                    csi_body_len(rest) == (j - (i + 2)) + csi_body_len(v@.skip(j as int)),
                decreases v.len() - j,
            {
                proof {
                    assert(v@.skip(j as int).drop_first() =~= v@.skip(j + 1));
                }
                j = j + 1;
            }
            if j < v.len() {
                j = j + 1;
            }
            proof {
                if j <= v@.len() && j > i + 2 && '@' <= v@[j - 1] && v@[j - 1] <= '~' {
                    assert(rest.skip(csi_body_len(rest) as int) =~= v@.skip(j as int));
                } else {
                    assert(rest.skip(csi_body_len(rest) as int) =~= v@.skip(j as int));
                }
            }
            i = j;
        } else {
            let ghost before = out@;
            text::push_char(&mut out, v[i]);
            proof {
                assert(s.drop_first() =~= v@.skip(i + 1));
                assert(out@ + strip_ansi(v@.skip(i + 1)) =~= before + strip_ansi(s));
            }
            i = i + 1;
        }
    }
    proof {
        assert(v@.skip(v@.len() as int) =~= Seq::<char>::empty());
        assert(out@ + Seq::<char>::empty() =~= out@);
    }
    out
}

/// What is shown of decoded output text: escape sequences taken out, at most
/// `max_chars` characters, control characters but tabs as spaces, and `...` when
/// the line was cut.
pub fn clean_output_text(decoded: &str, max_chars: usize) -> (r: String)
    ensures
        r@ == shown_output(strip_ansi(decoded@), max_chars as nat),
{
    let stripped = strip_ansi_sequences(decoded);
    let v = text::chars_of(stripped.as_str());
    let mut out = String::new();
    let mut count: usize = 0;
    let limit = if v.len() < max_chars {
        v.len()
    } else {
        max_chars
    };
    while count < limit
        invariant
            0 <= count <= limit <= v@.len(),
            limit <= max_chars,
            out@ =~= v@.take(count as int).map_values(|c: char| display_char(c)),
        decreases limit - count,
    {
        let c = v[count];
        if c == '\t' || !text::char_is_control(c) {
            text::push_char(&mut out, c);
        } else {
            text::push_char(&mut out, ' ');
        }
        proof {
            assert(v@.take(count + 1).map_values(|c: char| display_char(c)) =~= v@.take(
                count as int,
            ).map_values(|c: char| display_char(c)).push(display_char(v@[count as int])));
        }
        count = count + 1;
    }
    if v.len() > max_chars {
        text::push_str(&mut out, "...");
    } else {
        proof {
            assert(v@.take(count as int) =~= v@);
        }
    }
    out
}

/// A raw output line made fit for display: trailing line breaks cut off, decoded as
/// UTF-8 with invalid sequences replaced, escape sequences taken out, at most
/// `max_chars` characters, control characters as spaces and `...` when cut.
pub fn sanitize_output_line(bytes: &[u8], max_chars: usize) -> (r: String)
    ensures
        r@ == shown_output(
            strip_ansi(
                utf8_lossy(bytes@.take(end_without_newlines(bytes@, bytes@.len() as int))),
            ),
            max_chars as nat,
        ),
{
    let mut end = bytes.len();
    while end > 0 && (bytes[end - 1] == 10u8 || bytes[end - 1] == 13u8)
        invariant
            0 <= end <= bytes@.len(),
            end_without_newlines(bytes@, bytes@.len() as int) == end_without_newlines(
                bytes@,
                end as int,
            ),
        decreases end,
    {
        end = end - 1;
    }
    let mut kept: Vec<u8> = Vec::new();
    let mut i: usize = 0;
    while i < end
        invariant
            0 <= i <= end <= bytes@.len(),
            kept@ =~= bytes@.take(i as int),
        decreases end - i,
    {
        kept.push(bytes[i]);
        i = i + 1;
    }
    let decoded = utf8_lossy_text(kept.as_slice());
    clean_output_text(decoded.as_str(), max_chars)
}

/// What a push does to a store, read through its snapshots before (`a`) and after
/// (`b`): the total grows by one, the lines become the last `k` of the old lines and
/// the new one (`k` one more than held, capped at the limit), every line dropped is
/// counted, and the new line is last unless the store keeps none.
pub proof fn lemma_output_push_keeps_recent(a: OutputStoreModel, b: OutputStoreModel, x: OutputLineModel)
    requires
        output_store_wf(a),
        b.lines == keep_recent(a.lines, a.max_lines, x),
        b.max_lines == a.max_lines,
        b.total == a.total + 1,
        b.dropped == a.dropped + (if a.max_lines == 0 || a.lines.len() == a.max_lines {
            1int
        } else {
            0int
        }),
    ensures
        ({
            let k: int = if a.lines.len() + 1 < a.max_lines { a.lines.len() + 1 as int } else { a.max_lines as int };
            &&& b.total == a.total + 1
            &&& b.lines == a.lines.push(x).skip(a.lines.len() + 1 - k)
            &&& b.lines.len() == k
            &&& b.dropped == a.dropped + (a.lines.len() + 1 - k)
            &&& (a.max_lines > 0 ==> b.lines.last() == x)
            &&& (a.max_lines == 0 ==> b.lines.len() == 0)
            &&& output_store_wf(b)
        }),
{
    crate::recent::lemma_keep_recent_shape(a.lines, a.max_lines, x);
}

} // verus!
