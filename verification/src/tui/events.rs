//! What a key press does to the interface: the decisions of the terminal UI as a
//! function from the state and a key to the next state and what the caller must do.

use crate::capture::details::{overview_text, raw_text, request_text, response_text, timing_text, tls_text};
use crate::capture::details::{overview_text_of, raw_text_of, request_text_of, response_text_of, timing_text_of, tls_text_of};
use crate::capture::filter_suggestions::ParseStateModel;
use crate::capture::model::{entry_url, TrafficEntry};
use crate::capture::store::{parse_filter, FilterIndex, TrafficFilter};
use crate::diagnostics::logs::{clipboard_of, log_lines_view, TlscopeLogSnapshot};
use crate::process::logs::{output_clipboard_of, output_lines_view, ChildLogSnapshot};
use crate::text;
use crate::tui::filter;
use crate::tui::filter::{
    applied_suggestion, backspaced, cleared, deleted, inserted, moved_end, moved_home, moved_left,
    moved_right, refreshed, reset, selected_next, selected_previous, token_deleted,
};
use crate::tui::state::{
    detail_title, log_empty_message, log_label, next_detail_tab, other_log_tab,
    previous_detail_tab, ClipboardRequest, DetailTab, LogTab, Screen, TuiExit, TuiState,
};
use vstd::prelude::*;

verus! {

/// The width used to estimate how many screen lines a detail text takes.
pub const DETAIL_SCROLL_ESTIMATE_WIDTH: usize = 40;

/// A key, as far as the interface tells keys apart.
#[derive(Debug, Clone, Copy, PartialEq, Eq, Structural)]
pub enum KeyCode {
    Char(char),
    Enter,
    Esc,
    Backspace,
    Delete,
    Left,
    Right,
    Home,
    End,
    Up,
    Down,
    PageUp,
    PageDown,
    Tab,
    BackTab,
    Other,
}

/// A key press with the modifiers the interface reads.
#[derive(Debug, Clone, Copy, PartialEq, Eq, Structural)]
pub struct KeyPress {
    pub code: KeyCode,
    pub control: bool,
    pub shift: bool,
}

/// What the caller must do after a key press.
#[derive(Debug, Clone, Copy, PartialEq, Eq, Structural)]
pub enum KeyEffect {
    /// Nothing more.
    Nothing,
    /// Leave the interface.
    Exit(TuiExit),
    /// Empty the traffic store.
    ClearStore,
    /// Export the session, then call `record_export` on success.
    ExportSession,
}

// ---------------------------------------------------------------------------
// State relations
// ---------------------------------------------------------------------------

/// `b` is `a` with only the message changed, to `m`.
pub open spec fn only_message(a: TuiState, b: TuiState, m: Seq<char>) -> bool {
    b == (TuiState { message: b.message, ..a }) && b.message@ == m
}

fn set_message(state: &mut TuiState, m: &str)
    ensures
        only_message(*old(state), *final(state), m@),
{
    state.message = text::to_owned(m);
}

/// `usize::saturating_add`.
pub open spec fn sat_add(a: usize, b: usize) -> usize {
    if a + b > usize::MAX {
        usize::MAX
    } else {
        (a + b) as usize
    }
}

/// `usize::saturating_sub`.
pub open spec fn sat_sub(a: usize, b: usize) -> usize {
    if a >= b {
        (a - b) as usize
    } else {
        0
    }
}

/// The smaller of two numbers.
pub open spec fn min_usize(a: usize, b: usize) -> usize {
    if a < b {
        a
    } else {
        b
    }
}

// ---------------------------------------------------------------------------
// Request list
// ---------------------------------------------------------------------------

/// Moving the selection down by `amount` in a list of `n` requests.
pub open spec fn selected_next_request(a: TuiState, b: TuiState, n: nat, amount: usize) -> bool {
    if n == 0 {
        only_message(a, b, "No captured request to select yet."@)
    } else {
        let last = (n - 1) as usize;
        let sel = min_usize(a.selected, last);
        if sel == last {
            only_message(TuiState { selected: sel, ..a }, b, "Already at the last request."@)
        } else {
            only_message(
                TuiState { selected: min_usize(sat_add(sel, amount), last), detail_scroll_offset: 0, ..a },
                b,
                Seq::empty(),
            )
        }
    }
}

fn select_next_request(state: &mut TuiState, n: usize, amount: usize)
    ensures
        selected_next_request(*old(state), *final(state), n as nat, amount),
{
    if n == 0 {
        set_message(state, "No captured request to select yet.");
        return;
    }
    let last = n - 1;
    if state.selected > last {
        state.selected = last;
    }
    if state.selected == last {
        set_message(state, "Already at the last request.");
    } else {
        let next = if state.selected > usize::MAX - amount {
            usize::MAX
        } else {
            state.selected + amount
        };
        state.selected = if next < last {
            next
        } else {
            last
        };
        state.detail_scroll_offset = 0;
        state.message = String::new();
    }
}

/// Moving the selection up by `amount` in a list of `n` requests.
pub open spec fn selected_previous_request(a: TuiState, b: TuiState, n: nat, amount: usize) -> bool {
    if n == 0 {
        only_message(a, b, "No captured request to select yet."@)
    } else {
        let sel = min_usize(a.selected, (n - 1) as usize);
        if sel == 0 {
            only_message(TuiState { selected: sel, ..a }, b, "Already at the first request."@)
        } else {
            only_message(
                TuiState { selected: sat_sub(sel, amount), detail_scroll_offset: 0, ..a },
                b,
                Seq::empty(),
            )
        }
    }
}

fn select_previous_request(state: &mut TuiState, n: usize, amount: usize)
    ensures
        selected_previous_request(*old(state), *final(state), n as nat, amount),
{
    if n == 0 {
        set_message(state, "No captured request to select yet.");
        return;
    }
    if state.selected > n - 1 {
        state.selected = n - 1;
    }
    if state.selected == 0 {
        set_message(state, "Already at the first request.");
    } else {
        state.selected = if state.selected >= amount {
            state.selected - amount
        } else {
            0
        };
        state.detail_scroll_offset = 0;
        state.message = String::new();
    }
}

// ---------------------------------------------------------------------------
// Detail scrolling
// ---------------------------------------------------------------------------

/// The lines of a text as `str::lines` gives them: split at `\n`, a `\r` before a
/// `\n` dropped, and no empty last line after a final `\n`.
pub open spec fn text_lines(s: Seq<char>) -> Seq<Seq<char>> {
    let parts = text::split(s, '\n');
    let n = if parts.last().len() == 0 {
        parts.len() - 1
    } else {
        parts.len() as int
    };
    Seq::new(
        n as nat,
        |i: int|
            if i < parts.len() - 1 && parts[i].len() > 0 && parts[i].last() == '\r' {
                parts[i].drop_last()
            } else {
                parts[i]
            },
    )
}

/// How many screen lines of `DETAIL_SCROLL_ESTIMATE_WIDTH` columns the lines take.
pub open spec fn wrapped_lines(ls: Seq<Seq<char>>) -> nat
    decreases ls.len(),
{
    if ls.len() == 0 {
        0
    } else {
        let w = if ls.last().len() < 1 {
            1
        } else {
            ls.last().len()
        };
        wrapped_lines(ls.drop_last()) + ((w + 39) / 40) as nat
    }
}

/// The estimated number of screen lines of a text: at least one.
pub open spec fn visual_lines(s: Seq<char>) -> nat {
    let n = wrapped_lines(text_lines(s));
    if n < 1 {
        1
    } else {
        n
    }
}

/// The estimated number of screen lines of a text, `usize::MAX` at most.
pub fn estimated_visual_lines(t: &str) -> (r: usize)
    ensures
        r == (if visual_lines(t@) > usize::MAX {
            usize::MAX as nat
        } else {
            visual_lines(t@)
        }),
{
    let parts = text::split_char(t, '\n');
    let ghost ps = text::views(parts@);
    let np = parts.len();
    proof {
        reveal_with_fuel(text::split, 2);
        assert(ps.len() >= 1);
    }
    let n = if parts[np - 1].as_str().is_empty() {
        np - 1
    } else {
        np
    };
    let ghost ls = text_lines(t@);
    let mut total: u128 = 0;
    let mut i: usize = 0;
    proof {
        assert(ls.take(0) =~= Seq::<Seq<char>>::empty());
    }
    while i < n
        invariant
            0 <= i <= n <= np,
            np == parts@.len(),
            ps == text::views(parts@),
            ps == text::split(t@, '\n'),
            ls == text_lines(t@),
            ls.len() == n,
            total == wrapped_lines(ls.take(i as int)),
            total <= i * 0x1000_0000_0000_0000,
        decreases n - i,
    {
        let v = text::chars_of(parts[i].as_str());
        let mut len = v.len();
        if i < np - 1 && len > 0 && v[len - 1] == '\r' {
            len = len - 1;
        }
        let w: usize = if len < 1 {
            1
        } else {
            len
        };
        proof {
            assert(ps[i as int] == parts@[i as int]@);
            assert(ls[i as int].len() == len);
            assert(ls.take(i + 1).drop_last() =~= ls.take(i as int));
        }
        let term: u128 = ((w as u128) + 39) / 40;
        proof {
            assert(term <= 0x1000_0000_0000_0000);
        }
        total = total + term;
        i = i + 1;
    }
    proof {
        assert(ls.take(n as int) =~= ls);
    }
    if total < 1 {
        1
    } else if total > usize::MAX as u128 {
        usize::MAX
    } else {
        total as usize
    }
}


/// The text of a detail tab for an entry, given how the overview writes times.
pub open spec fn tab_text_of(e: crate::capture::model::TrafficEntryView, tab: DetailTab, started: Seq<char>, completed: Seq<char>) -> Seq<char> {
    match tab {
        DetailTab::Overview => overview_text_of(e, started, completed),
        DetailTab::Request => request_text_of(e),
        DetailTab::Response => response_text_of(e),
        DetailTab::Tls => tls_text_of(e),
        DetailTab::Timing => timing_text_of(e),
        DetailTab::Raw => raw_text_of(e),
    }
}

fn tab_text(entry: &TrafficEntry, tab: DetailTab) -> (r: String)
    ensures
        exists|started: Seq<char>, completed: Seq<char>| r@ == tab_text_of(entry@, tab, started, completed),
{
    match tab {
        DetailTab::Overview => {
            let r = overview_text(entry);
            proof {
                let (started, completed) = choose|started: Seq<char>, completed: Seq<char>|
                    r@ == overview_text_of(entry@, started, completed);
                assert(r@ == tab_text_of(entry@, tab, started, completed));
            }
            r
        },
        DetailTab::Request => {
            let r = request_text(entry);
            proof {
                assert(r@ == tab_text_of(entry@, tab, Seq::empty(), Seq::empty()));
            }
            r
        },
        DetailTab::Response => {
            let r = response_text(entry);
            proof {
                assert(r@ == tab_text_of(entry@, tab, Seq::empty(), Seq::empty()));
            }
            r
        },
        DetailTab::Tls => {
            let r = tls_text(entry);
            proof {
                assert(r@ == tab_text_of(entry@, tab, Seq::empty(), Seq::empty()));
            }
            r
        },
        DetailTab::Timing => {
            let r = timing_text(entry);
            proof {
                assert(r@ == tab_text_of(entry@, tab, Seq::empty(), Seq::empty()));
            }
            r
        },
        DetailTab::Raw => {
            let r = raw_text(entry);
            proof {
                assert(r@ == tab_text_of(entry@, tab, Seq::empty(), Seq::empty()));
            }
            r
        },
    }
}

/// The selected entry's index: the selection, moved to the last entry if past it.
pub open spec fn selected_index(selected: usize, n: nat) -> int {
    if n == 0 {
        0
    } else if selected < n {
        selected as int
    } else {
        n - 1
    }
}

/// How far the detail text can scroll: one less than its estimated screen lines, or
/// nothing without a selected entry.
pub open spec fn detail_limit_of(a: TuiState, entries: Seq<TrafficEntry>, started: Seq<char>, completed: Seq<char>) -> usize {
    if entries.len() == 0 {
        0
    } else {
        let t = tab_text_of(entries[selected_index(a.selected, entries.len())]@, a.tab, started, completed);
        let v = if visual_lines(t) > usize::MAX {
            usize::MAX as nat
        } else {
            visual_lines(t)
        };
        (v - 1) as usize
    }
}

/// Whether `l` is how far the detail text can scroll for some writing of the times.
pub open spec fn is_detail_limit(a: TuiState, entries: Seq<TrafficEntry>, l: usize) -> bool {
    exists|started: Seq<char>, completed: Seq<char>| l == detail_limit_of(a, entries, started, completed)
}

fn detail_scroll_limit(state: &TuiState, entries: &[TrafficEntry]) -> (r: usize)
    ensures
        is_detail_limit(*state, entries@, r),
{
    if entries.len() == 0 {
        proof {
            assert(0 == detail_limit_of(*state, entries@, Seq::empty(), Seq::empty()));
        }
        return 0;
    }
    let idx = if state.selected < entries.len() {
        state.selected
    } else {
        entries.len() - 1
    };
    let t = tab_text(&entries[idx], state.tab);
    let v = estimated_visual_lines(t.as_str());
    proof {
        let (started, completed) = choose|started: Seq<char>, completed: Seq<char>|
            t@ == tab_text_of(entries@[idx as int]@, state.tab, started, completed);
        assert(v - 1 == detail_limit_of(*state, entries@, started, completed));
    }
    v - 1
}

/// Scrolling the details down by `amount` when they can scroll `limit` lines.
pub open spec fn scrolled_details_down(a: TuiState, b: TuiState, limit: usize, amount: usize) -> bool {
    if limit == 0 {
        only_message(a, b, "Current detail tab fits on screen."@)
    } else if a.detail_scroll_offset >= limit {
        only_message(a, b, "Already at the bottom of details."@)
    } else {
        only_message(
            TuiState { detail_scroll_offset: min_usize(sat_add(a.detail_scroll_offset, amount), limit), ..a },
            b,
            "details down"@,
        )
    }
}

fn scroll_details_down(state: &mut TuiState, limit: usize, amount: usize)
    ensures
        scrolled_details_down(*old(state), *final(state), limit, amount),
{
    if limit == 0 {
        set_message(state, "Current detail tab fits on screen.");
        return;
    }
    if state.detail_scroll_offset >= limit {
        set_message(state, "Already at the bottom of details.");
    } else {
        let next = if state.detail_scroll_offset > usize::MAX - amount {
            usize::MAX
        } else {
            state.detail_scroll_offset + amount
        };
        state.detail_scroll_offset = if next < limit {
            next
        } else {
            limit
        };
        set_message(state, "details down");
    }
}

/// Scrolling the details up by `amount`.
pub open spec fn scrolled_details_up(a: TuiState, b: TuiState, amount: usize) -> bool {
    if a.detail_scroll_offset == 0 {
        only_message(a, b, "Already at the top of details."@)
    } else {
        let off = sat_sub(a.detail_scroll_offset, amount);
        only_message(
            TuiState { detail_scroll_offset: off, ..a },
            b,
            if off == 0 {
                "top of details"@
            } else {
                "details up"@
            },
        )
    }
}

fn scroll_details_up(state: &mut TuiState, amount: usize)
    ensures
        scrolled_details_up(*old(state), *final(state), amount),
{
    if state.detail_scroll_offset == 0 {
        set_message(state, "Already at the top of details.");
    } else {
        state.detail_scroll_offset = if state.detail_scroll_offset >= amount {
            state.detail_scroll_offset - amount
        } else {
            0
        };
        if state.detail_scroll_offset == 0 {
            set_message(state, "top of details");
        } else {
            set_message(state, "details up");
        }
    }
}

// ---------------------------------------------------------------------------
// Logs
// ---------------------------------------------------------------------------

/// `"<label> logs"` after a word, as the log screen's messages read.
pub open spec fn log_message(prefix: Seq<char>, tab: LogTab) -> Seq<char> {
    prefix + log_label(tab) + " logs"@
}

fn set_log_message(state: &mut TuiState, prefix: &str)
    ensures
        only_message(*old(state), *final(state), log_message(prefix@, old(state).log_tab)),
{
    let mut m = text::to_owned(prefix);
    text::push_str(&mut m, state.log_tab.label());
    text::push_str(&mut m, " logs");
    state.message = m;
}

/// Scrolling the log towards older lines by `amount` when it holds `count` lines.
pub open spec fn scrolled_logs_older(a: TuiState, b: TuiState, count: usize, amount: usize) -> bool {
    if count == 0 {
        only_message(a, b, log_empty_message(a.log_tab))
    } else if a.log_scroll_offset >= count - 1 {
        only_message(a, b, "Already at the oldest log line."@)
    } else {
        only_message(
            TuiState { log_scroll_offset: min_usize(sat_add(a.log_scroll_offset, amount), (count - 1) as usize), ..a },
            b,
            log_message("older "@, a.log_tab),
        )
    }
}

fn scroll_logs_older(state: &mut TuiState, count: usize, amount: usize)
    ensures
        scrolled_logs_older(*old(state), *final(state), count, amount),
{
    if count == 0 {
        let m = state.log_tab.empty_message();
        set_message(state, m);
        return;
    }
    let max = count - 1;
    if state.log_scroll_offset >= max {
        set_message(state, "Already at the oldest log line.");
    } else {
        let next = if state.log_scroll_offset > usize::MAX - amount {
            usize::MAX
        } else {
            state.log_scroll_offset + amount
        };
        state.log_scroll_offset = if next < max {
            next
        } else {
            max
        };
        set_log_message(state, "older ");
    }
}

/// Scrolling the log towards newer lines by `amount`.
pub open spec fn scrolled_logs_newer(a: TuiState, b: TuiState, amount: usize) -> bool {
    if a.log_scroll_offset == 0 {
        only_message(a, b, "Already following the latest log line."@)
    } else {
        let off = sat_sub(a.log_scroll_offset, amount);
        only_message(
            TuiState { log_scroll_offset: off, ..a },
            b,
            if off == 0 {
                log_message("following "@, a.log_tab)
            } else {
                log_message("newer "@, a.log_tab)
            },
        )
    }
}

fn scroll_logs_newer(state: &mut TuiState, amount: usize)
    ensures
        scrolled_logs_newer(*old(state), *final(state), amount),
{
    if state.log_scroll_offset == 0 {
        set_message(state, "Already following the latest log line.");
    } else {
        state.log_scroll_offset = if state.log_scroll_offset >= amount {
            state.log_scroll_offset - amount
        } else {
            0
        };
        if state.log_scroll_offset == 0 {
            set_log_message(state, "following ");
        } else {
            set_log_message(state, "newer ");
        }
    }
}

/// Switching to the other log tab, back at the newest line.
pub open spec fn switched_log_tab(a: TuiState, b: TuiState) -> bool {
    only_message(
        TuiState { log_tab: other_log_tab(a.log_tab), log_scroll_offset: 0, ..a },
        b,
        log_message(Seq::empty(), other_log_tab(a.log_tab)),
    )
}

fn switch_log_tab(state: &mut TuiState, previous: bool)
    ensures
        switched_log_tab(*old(state), *final(state)),
{
    state.log_tab = if previous {
        state.log_tab.previous()
    } else {
        state.log_tab.next()
    };
    state.log_scroll_offset = 0;
    set_log_message(state, "");
    proof {
        reveal_strlit("");
        assert(""@ =~= Seq::<char>::empty());
    }
}

/// The number of lines of the log the tab shows.
pub open spec fn log_count(tab: LogTab, p: ChildLogSnapshot, t: TlscopeLogSnapshot) -> nat {
    match tab {
        LogTab::Process => p.lines@.len(),
        LogTab::Tlscope => t.lines@.len(),
    }
}

/// The clipboard text of the log the tab shows.
pub open spec fn log_clipboard(tab: LogTab, p: ChildLogSnapshot, t: TlscopeLogSnapshot) -> Seq<char> {
    match tab {
        LogTab::Process => output_clipboard_of(output_lines_view(p.lines@), p.dropped as nat),
        LogTab::Tlscope => clipboard_of(log_lines_view(t.lines@), t.dropped as nat),
    }
}

/// Asking to copy the shown log: a clipboard request with its text, or the empty
/// log's message.
pub open spec fn copied_logs(a: TuiState, b: TuiState, p: ChildLogSnapshot, t: TlscopeLogSnapshot) -> bool {
    let text = log_clipboard(a.log_tab, p, t);
    if text.len() == 0 {
        only_message(a, b, log_empty_message(a.log_tab))
    } else {
        &&& b == (TuiState { clipboard_request: b.clipboard_request, ..a })
        &&& b.clipboard_request matches Some(req) && req.label@ == log_label(a.log_tab) && req.text@ == text
    }
}

fn copy_current_logs(state: &mut TuiState, p: &ChildLogSnapshot, t: &TlscopeLogSnapshot)
    ensures
        copied_logs(*old(state), *final(state), *p, *t),
{
    let text = match state.log_tab {
        LogTab::Process => p.clipboard_text(),
        LogTab::Tlscope => t.clipboard_text(),
    };
    if text.as_str().is_empty() {
        let m = state.log_tab.empty_message();
        set_message(state, m);
    } else {
        state.clipboard_request = Some(ClipboardRequest { label: state.log_tab.label(), text });
    }
}

// ---------------------------------------------------------------------------
// Common actions
// ---------------------------------------------------------------------------

/// Pausing or resuming the live view.
pub open spec fn toggled_pause(a: TuiState, b: TuiState) -> bool {
    only_message(
        TuiState { paused: !a.paused, ..a },
        b,
        if !a.paused {
            "paused"@
        } else {
            "live"@
        },
    )
}

fn toggle_pause(state: &mut TuiState)
    ensures
        toggled_pause(*old(state), *final(state)),
{
    state.paused = !state.paused;
    if state.paused {
        set_message(state, "paused");
    } else {
        set_message(state, "live");
    }
}

/// Clearing the session: selection and scrolling reset; the store is emptied by the
/// caller.
pub open spec fn cleared_session(a: TuiState, b: TuiState) -> bool {
    only_message(
        TuiState { selected: 0, detail_scroll_offset: 0, log_scroll_offset: 0, ..a },
        b,
        "session cleared"@,
    )
}

fn clear_session(state: &mut TuiState)
    ensures
        cleared_session(*old(state), *final(state)),
{
    state.selected = 0;
    state.detail_scroll_offset = 0;
    state.log_scroll_offset = 0;
    set_message(state, "session cleared");
}

/// Records that the session was exported.
pub fn record_export(state: &mut TuiState)
    ensures
        only_message(*old(state), *final(state), "exported TLScope-export.json"@),
{
    set_message(state, "exported TLScope-export.json");
}

/// Showing the selected request's URL, or that there is none.
pub open spec fn showed_url(a: TuiState, b: TuiState, entries: Seq<TrafficEntry>) -> bool {
    if entries.len() == 0 {
        only_message(a, b, "No selected request."@)
    } else {
        only_message(
            a,
            b,
            "selected URL: "@ + entry_url(entries[selected_index(a.selected, entries.len())]@),
        )
    }
}

fn show_selected_url(state: &mut TuiState, entries: &[TrafficEntry])
    ensures
        showed_url(*old(state), *final(state), entries@),
{
    if entries.len() == 0 {
        set_message(state, "No selected request.");
        return;
    }
    let idx = if state.selected < entries.len() {
        state.selected
    } else {
        entries.len() - 1
    };
    let mut m = text::to_owned("selected URL: ");
    let url = entries[idx].url();
    text::push_str(&mut m, url.as_str());
    state.message = m;
}

/// Starting to edit the filter from the applied text.
pub open spec fn began_filter_edit(a: TuiState, b: TuiState, index: FilterIndex) -> bool {
    &&& reset(a.filter_editor, b.filter_editor, a.applied_filter_text@, index)
    &&& only_message(
        TuiState { filter_editor: b.filter_editor, entering_filter: true, ..a },
        b,
        "filter mode"@,
    )
}

fn begin_filter_edit(state: &mut TuiState, index: &FilterIndex)
    ensures
        began_filter_edit(*old(state), *final(state), *index),
{
    let applied = state.applied_filter_text.clone();
    state.filter_editor.reset_to(applied.as_str(), index);
    state.entering_filter = true;
    set_message(state, "filter mode");
}


// ---------------------------------------------------------------------------
// Quitting
// ---------------------------------------------------------------------------

/// The answer to "quit how?": 1 ends the child too, 2 leaves it running, 3 or Esc
/// cancels; any other key repeats the question.
pub open spec fn quit_chosen(a: TuiState, b: TuiState, key: KeyPress, effect: KeyEffect) -> bool {
    match key.code {
        KeyCode::Char('1') => b == a && effect == KeyEffect::Exit(TuiExit::TerminateChild),
        KeyCode::Char('2') => b == a && effect == KeyEffect::Exit(TuiExit::LeaveChildRunning),
        KeyCode::Char('3') | KeyCode::Esc => only_message(
            TuiState { confirm_quit: false, ..a },
            b,
            "quit cancelled"@,
        ) && effect == KeyEffect::Nothing,
        _ => only_message(a, b, "Choose 1, 2, 3 or Esc."@) && effect == KeyEffect::Nothing,
    }
}

fn handle_quit_choice(key: KeyPress, state: &mut TuiState) -> (effect: KeyEffect)
    ensures
        quit_chosen(*old(state), *final(state), key, effect),
{
    match key.code {
        KeyCode::Char('1') => KeyEffect::Exit(TuiExit::TerminateChild),
        KeyCode::Char('2') => KeyEffect::Exit(TuiExit::LeaveChildRunning),
        KeyCode::Char('3') | KeyCode::Esc => {
            state.confirm_quit = false;
            set_message(state, "quit cancelled");
            KeyEffect::Nothing
        },
        _ => {
            set_message(state, "Choose 1, 2, 3 or Esc.");
            KeyEffect::Nothing
        },
    }
}

// ---------------------------------------------------------------------------
// Filter editing
// ---------------------------------------------------------------------------

/// `b` is `a` with only the filter editor changed.
pub open spec fn only_editor(a: TuiState, b: TuiState) -> bool {
    b == (TuiState { filter_editor: b.filter_editor, ..a })
}

/// `b` is `a` with the editor's error set to `e` and the message to `m`.
pub open spec fn editor_error(a: TuiState, b: TuiState, e: Seq<char>, m: Seq<char>) -> bool {
    &&& b.filter_editor == (filter::FilterEditorState { error: b.filter_editor.error, ..a.filter_editor })
    &&& b.filter_editor.error matches Some(x) && x@ == e
    &&& only_message(TuiState { filter_editor: b.filter_editor, ..a }, b, m)
}

/// Applying the edited filter: refused with the editor's error while it is
/// incomplete or wrong; otherwise it becomes the applied filter, editing ends, the
/// selection goes to the first request.
pub open spec fn filter_applied(a: TuiState, b: TuiState) -> bool {
    let t = a.filter_editor.text@;
    match a.filter_editor.parse_state@ {
        ParseStateModel::Incomplete => editor_error(a, b, "incomplete filter token"@, "filter is incomplete"@),
        ParseStateModel::Invalid(err) => editor_error(a, b, err, "filter has errors"@),
        ParseStateModel::Valid => match parse_filter(t) {
            Ok(cs) => {
                &&& b.applied_filter_text@ == t
                &&& b.applied_filter@ == cs
                &&& b.filter_editor == (filter::FilterEditorState { error: None, ..a.filter_editor })
                &&& b == (TuiState {
                    applied_filter_text: b.applied_filter_text,
                    applied_filter: b.applied_filter,
                    filter_editor: b.filter_editor,
                    entering_filter: false,
                    selected: 0,
                    detail_scroll_offset: 0,
                    message: b.message,
                    ..a
                })
                &&& b.message@ == if t.len() == 0 {
                    "filter cleared"@
                } else {
                    "filter applied"@
                }
            },
            Err(e) => editor_error(a, b, e, "filter has errors"@),
        },
    }
}

fn apply_filter(state: &mut TuiState)
    ensures
        filter_applied(*old(state), *final(state)),
{
    match &state.filter_editor.parse_state {
        crate::capture::filter_suggestions::FilterParseState::Incomplete => {
            state.filter_editor.error = Some(text::to_owned("incomplete filter token"));
            set_message(state, "filter is incomplete");
            return;
        },
        crate::capture::filter_suggestions::FilterParseState::Invalid(error) => {
            let e = error.clone();
            state.filter_editor.error = Some(e);
            set_message(state, "filter has errors");
            return;
        },
        crate::capture::filter_suggestions::FilterParseState::Valid => {},
    }
    match TrafficFilter::parse(state.filter_editor.text.as_str()) {
        Ok(parsed) => {
            state.applied_filter_text = state.filter_editor.text.clone();
            state.applied_filter = parsed;
            state.entering_filter = false;
            state.filter_editor.error = None;
            state.selected = 0;
            state.detail_scroll_offset = 0;
            if state.applied_filter_text.as_str().is_empty() {
                set_message(state, "filter cleared");
            } else {
                set_message(state, "filter applied");
            }
        },
        Err(error) => {
            state.filter_editor.error = Some(error);
            set_message(state, "filter has errors");
        },
    }
}

/// A key while the filter is edited, after the editor was refreshed to `a`.
pub open spec fn filter_key_step(a: TuiState, b: TuiState, key: KeyPress, index: FilterIndex) -> bool {
    let e = a.filter_editor;
    let f = b.filter_editor;
    match key.code {
        KeyCode::Enter => filter_applied(a, b),
        KeyCode::Esc => {
            &&& reset(e, f, a.applied_filter_text@, index)
            &&& only_message(TuiState { filter_editor: f, entering_filter: false, ..a }, b, "filter editing cancelled"@)
        },
        KeyCode::Backspace => only_editor(a, b) && backspaced(e, f, index),
        KeyCode::Delete => only_editor(a, b) && deleted(e, f, index),
        KeyCode::Left => only_editor(a, b) && moved_left(e, f),
        KeyCode::Right => only_editor(a, b) && moved_right(e, f),
        KeyCode::Home => only_editor(a, b) && moved_home(e, f),
        KeyCode::End => only_editor(a, b) && moved_end(e, f),
        KeyCode::Up | KeyCode::BackTab => only_editor(a, b) && selected_previous(e, f),
        KeyCode::Down => only_editor(a, b) && selected_next(e, f),
        KeyCode::Tab => only_editor(a, b) && exists|applied: bool| applied_suggestion(e, f, index, applied),
        KeyCode::Char(c) => if key.control && c == 'u' {
            only_editor(a, b) && cleared(e, f, index)
        } else if key.control && c == 'w' {
            only_editor(a, b) && token_deleted(e, f, index)
        } else {
            only_editor(a, b) && inserted(e, f, index, c)
        },
        _ => only_message(a, b, "Filter mode: type, arrows, Tab suggestion, Enter apply, Esc cancel."@),
    }
}

/// A key while the filter is edited: the editor is refreshed, then the key acts.
pub open spec fn filter_key_done(a: TuiState, b: TuiState, key: KeyPress, index: FilterIndex) -> bool {
    exists|mid: filter::FilterEditorState|
        refreshed(a.filter_editor, mid, index) && #[trigger] filter_key_step(
            TuiState { filter_editor: mid, ..a },
            b,
            key,
            index,
        )
}

fn handle_filter_key(key: KeyPress, state: &mut TuiState, index: &FilterIndex)
    ensures
        filter_key_done(*old(state), *final(state), key, *index),
{
    filter::refresh(&mut state.filter_editor, index);
    let ghost mid = state.filter_editor;
    let ghost a1 = *state;
    proof {
        filter::lemma_refreshed_at_boundary(old(state).filter_editor, mid, *index);
    }
    match key.code {
        KeyCode::Enter => apply_filter(state),
        KeyCode::Esc => {
            let applied = state.applied_filter_text.clone();
            state.filter_editor.reset_to(applied.as_str(), index);
            state.entering_filter = false;
            set_message(state, "filter editing cancelled");
        },
        KeyCode::Backspace => filter::backspace(&mut state.filter_editor, index),
        KeyCode::Delete => filter::delete(&mut state.filter_editor, index),
        KeyCode::Left => filter::move_left(&mut state.filter_editor),
        KeyCode::Right => filter::move_right(&mut state.filter_editor),
        KeyCode::Home => filter::move_home(&mut state.filter_editor),
        KeyCode::End => filter::move_end(&mut state.filter_editor),
        KeyCode::Up | KeyCode::BackTab => filter::select_previous_suggestion(&mut state.filter_editor),
        KeyCode::Down => filter::select_next_suggestion(&mut state.filter_editor),
        KeyCode::Tab => {
            let _ = filter::apply_selected_suggestion(&mut state.filter_editor, index);
        },
        KeyCode::Char(c) => {
            if key.control && c == 'u' {
                filter::clear(&mut state.filter_editor, index);
            } else if key.control && c == 'w' {
                filter::delete_current_token(&mut state.filter_editor, index);
            } else {
                filter::insert_char(&mut state.filter_editor, index, c);
            }
        },
        _ => set_message(state, "Filter mode: type, arrows, Tab suggestion, Enter apply, Esc cancel."),
    }
    proof {
        assert(a1 == (TuiState { filter_editor: mid, ..*old(state) }));
        assert(filter_key_step(a1, *state, key, *index));
    }
}


// ---------------------------------------------------------------------------
// Screens
// ---------------------------------------------------------------------------

/// The actions the list, detail and log screens share: pause, clear, export, and
/// (but on the log screen) showing the URL and reapplying the filter.
pub open spec fn shared_key(a: TuiState, b: TuiState, key: KeyPress, index: FilterIndex, entries: Seq<TrafficEntry>, effect: KeyEffect) -> bool {
    match key.code {
        KeyCode::Char('/') => began_filter_edit(a, b, index) && effect == KeyEffect::Nothing,
        KeyCode::Char(' ') => toggled_pause(a, b) && effect == KeyEffect::Nothing,
        KeyCode::Char('c') => cleared_session(a, b) && effect == KeyEffect::ClearStore,
        KeyCode::Char('e') => b == a && effect == KeyEffect::ExportSession,
        KeyCode::Char('r') => only_message(a, b, "filter reapplied"@) && effect == KeyEffect::Nothing,
        KeyCode::Char('y') => showed_url(a, b, entries) && effect == KeyEffect::Nothing,
        _ => false,
    }
}

/// The keys that the list, details and logs screens share.
pub open spec fn is_shared_key(code: KeyCode) -> bool {
    code == KeyCode::Char('/') || code == KeyCode::Char(' ') || code == KeyCode::Char('c') || code
        == KeyCode::Char('e') || code == KeyCode::Char('r') || code == KeyCode::Char('y')
}

fn handle_shared_key(key: KeyPress, state: &mut TuiState, index: &FilterIndex, entries: &[TrafficEntry]) -> (effect: KeyEffect)
    requires
        is_shared_key(key.code),
    ensures
        shared_key(*old(state), *final(state), key, *index, entries@, effect),
{
    match key.code {
        KeyCode::Char('/') => {
            begin_filter_edit(state, index);
            KeyEffect::Nothing
        },
        KeyCode::Char(' ') => {
            toggle_pause(state);
            KeyEffect::Nothing
        },
        KeyCode::Char('c') => {
            clear_session(state);
            KeyEffect::ClearStore
        },
        KeyCode::Char('e') => KeyEffect::ExportSession,
        KeyCode::Char('r') => {
            set_message(state, "filter reapplied");
            KeyEffect::Nothing
        },
        _ => {
            show_selected_url(state, entries);
            KeyEffect::Nothing
        },
    }
}

/// A key on the request list.
pub open spec fn list_key_done(a: TuiState, b: TuiState, key: KeyPress, index: FilterIndex, entries: Seq<TrafficEntry>, effect: KeyEffect) -> bool {
    let n = entries.len();
    if is_shared_key(key.code) {
        shared_key(a, b, key, index, entries, effect)
    } else {
        &&& effect == KeyEffect::Nothing
        &&& match key.code {
            KeyCode::Down | KeyCode::Char('j') => selected_next_request(a, b, n, 1),
            KeyCode::Up | KeyCode::Char('k') => selected_previous_request(a, b, n, 1),
            KeyCode::PageDown => selected_next_request(a, b, n, 10),
            KeyCode::PageUp => selected_previous_request(a, b, n, 10),
            KeyCode::Home => if n == 0 {
                only_message(a, b, "No captured request to select yet."@)
            } else {
                only_message(TuiState { selected: 0, detail_scroll_offset: 0, ..a }, b, "first request"@)
            },
            KeyCode::End => if n == 0 {
                only_message(a, b, "No captured request to select yet."@)
            } else {
                only_message(
                    TuiState { selected: (n - 1) as usize, detail_scroll_offset: 0, ..a },
                    b,
                    "last request"@,
                )
            },
            KeyCode::Enter => if n > 0 {
                only_message(
                    TuiState {
                        selected: min_usize(a.selected, (n - 1) as usize),
                        screen: Screen::Details,
                        detail_scroll_offset: 0,
                        ..a
                    },
                    b,
                    Seq::empty(),
                )
            } else {
                only_message(a, b, "No captured request to inspect yet."@)
            },
            KeyCode::Esc => only_message(a, b, "Already on the request list. Press q to quit."@),
            KeyCode::Tab | KeyCode::BackTab => only_message(
                a,
                b,
                "Tabs are available only in request details. Press Enter first."@,
            ),
            _ => only_message(a, b, "This key is not available here. Press ? for help."@),
        }
    }
}

fn handle_list_key(key: KeyPress, state: &mut TuiState, index: &FilterIndex, entries: &[TrafficEntry]) -> (effect: KeyEffect)
    ensures
        list_key_done(*old(state), *final(state), key, *index, entries@, effect),
{
    if key.code == KeyCode::Char('/') || key.code == KeyCode::Char(' ') || key.code == KeyCode::Char('c')
        || key.code == KeyCode::Char('e') || key.code == KeyCode::Char('r') || key.code
        == KeyCode::Char('y') {
        return handle_shared_key(key, state, index, entries);
    }
    let n = entries.len();
    match key.code {
        KeyCode::Down | KeyCode::Char('j') => select_next_request(state, n, 1),
        KeyCode::Up | KeyCode::Char('k') => select_previous_request(state, n, 1),
        KeyCode::PageDown => select_next_request(state, n, 10),
        KeyCode::PageUp => select_previous_request(state, n, 10),
        KeyCode::Home => {
            if n == 0 {
                set_message(state, "No captured request to select yet.");
            } else {
                state.selected = 0;
                state.detail_scroll_offset = 0;
                set_message(state, "first request");
            }
        },
        KeyCode::End => {
            if n == 0 {
                set_message(state, "No captured request to select yet.");
            } else {
                state.selected = n - 1;
                state.detail_scroll_offset = 0;
                set_message(state, "last request");
            }
        },
        KeyCode::Enter => {
            if n > 0 {
                if state.selected > n - 1 {
                    state.selected = n - 1;
                }
                state.screen = Screen::Details;
                state.detail_scroll_offset = 0;
                state.message = String::new();
            } else {
                set_message(state, "No captured request to inspect yet.");
            }
        },
        KeyCode::Esc => set_message(state, "Already on the request list. Press q to quit."),
        KeyCode::Tab | KeyCode::BackTab => set_message(
            state,
            "Tabs are available only in request details. Press Enter first.",
        ),
        _ => set_message(state, "This key is not available here. Press ? for help."),
    }
    KeyEffect::Nothing
}

/// A key on the detail screen; `limit` is how far the details can scroll.
pub open spec fn detail_key_step(a: TuiState, b: TuiState, key: KeyPress, index: FilterIndex, entries: Seq<TrafficEntry>, limit: usize, effect: KeyEffect) -> bool {
    if is_shared_key(key.code) {
        shared_key(a, b, key, index, entries, effect)
    } else {
        &&& effect == KeyEffect::Nothing
        &&& match key.code {
            KeyCode::Down | KeyCode::Char('j') => scrolled_details_down(a, b, limit, 1),
            KeyCode::Up | KeyCode::Char('k') => scrolled_details_up(a, b, 1),
            KeyCode::PageDown => scrolled_details_down(a, b, limit, 10),
            KeyCode::PageUp => scrolled_details_up(a, b, 10),
            KeyCode::Home => only_message(TuiState { detail_scroll_offset: 0, ..a }, b, "top of details"@),
            KeyCode::End => only_message(TuiState { detail_scroll_offset: limit, ..a }, b, "bottom of details"@),
            KeyCode::Esc => only_message(TuiState { screen: Screen::List, ..a }, b, Seq::empty()),
            KeyCode::Tab => {
                let t = if key.shift {
                    previous_detail_tab(a.tab)
                } else {
                    next_detail_tab(a.tab)
                };
                only_message(TuiState { tab: t, detail_scroll_offset: 0, ..a }, b, "tab: "@ + detail_title(t))
            },
            KeyCode::BackTab => {
                let t = previous_detail_tab(a.tab);
                only_message(TuiState { tab: t, detail_scroll_offset: 0, ..a }, b, "tab: "@ + detail_title(t))
            },
            _ => only_message(
                a,
                b,
                "Details: Up/Down scroll, PgUp/PgDn page, Home/End jump, Esc list."@,
            ),
        }
    }
}

/// A key on the detail screen.
pub open spec fn detail_key_done(a: TuiState, b: TuiState, key: KeyPress, index: FilterIndex, entries: Seq<TrafficEntry>, effect: KeyEffect) -> bool {
    exists|limit: usize|
        is_detail_limit(a, entries, limit) && #[trigger] detail_key_step(a, b, key, index, entries, limit, effect)
}

fn set_tab_message(state: &mut TuiState)
    ensures
        only_message(*old(state), *final(state), "tab: "@ + detail_title(old(state).tab)),
{
    let mut m = text::to_owned("tab: ");
    text::push_str(&mut m, state.tab.title());
    state.message = m;
}

fn handle_detail_key(key: KeyPress, state: &mut TuiState, index: &FilterIndex, entries: &[TrafficEntry]) -> (effect: KeyEffect)
    ensures
        detail_key_done(*old(state), *final(state), key, *index, entries@, effect),
{
    let limit = detail_scroll_limit(state, entries);
    if key.code == KeyCode::Char('/') || key.code == KeyCode::Char(' ') || key.code == KeyCode::Char('c')
        || key.code == KeyCode::Char('e') || key.code == KeyCode::Char('r') || key.code
        == KeyCode::Char('y') {
        let effect = handle_shared_key(key, state, index, entries);
        proof {
            assert(detail_key_step(*old(state), *state, key, *index, entries@, limit, effect));
        }
        return effect;
    }
    match key.code {
        KeyCode::Down | KeyCode::Char('j') => scroll_details_down(state, limit, 1),
        KeyCode::Up | KeyCode::Char('k') => scroll_details_up(state, 1),
        KeyCode::PageDown => scroll_details_down(state, limit, 10),
        KeyCode::PageUp => scroll_details_up(state, 10),
        KeyCode::Home => {
            state.detail_scroll_offset = 0;
            set_message(state, "top of details");
        },
        KeyCode::End => {
            state.detail_scroll_offset = limit;
            set_message(state, "bottom of details");
        },
        KeyCode::Esc => {
            state.screen = Screen::List;
            state.message = String::new();
        },
        KeyCode::Tab => {
            state.tab = if key.shift {
                state.tab.previous()
            } else {
                state.tab.next()
            };
            state.detail_scroll_offset = 0;
            set_tab_message(state);
        },
        KeyCode::BackTab => {
            state.tab = state.tab.previous();
            state.detail_scroll_offset = 0;
            set_tab_message(state);
        },
        _ => set_message(state, "Details: Up/Down scroll, PgUp/PgDn page, Home/End jump, Esc list."),
    }
    proof {
        assert(detail_key_step(*old(state), *state, key, *index, entries@, limit, KeyEffect::Nothing));
    }
    KeyEffect::Nothing
}

/// A key on the help screen.
pub open spec fn help_key_done(a: TuiState, b: TuiState, key: KeyPress) -> bool {
    match key.code {
        KeyCode::Esc => only_message(TuiState { screen: Screen::List, ..a }, b, Seq::empty()),
        _ => only_message(a, b, "Help: Esc back, l logs, q quit."@),
    }
}

fn handle_help_key(key: KeyPress, state: &mut TuiState)
    ensures
        help_key_done(*old(state), *final(state), key),
{
    match key.code {
        KeyCode::Esc => {
            state.screen = Screen::List;
            state.message = String::new();
        },
        _ => set_message(state, "Help: Esc back, l logs, q quit."),
    }
}

/// A key on the log screen.
pub open spec fn log_key_done(
    a: TuiState,
    b: TuiState,
    key: KeyPress,
    index: FilterIndex,
    entries: Seq<TrafficEntry>,
    p: ChildLogSnapshot,
    t: TlscopeLogSnapshot,
    effect: KeyEffect,
) -> bool {
    let count = log_count(a.log_tab, p, t);
    if key.code == KeyCode::Char(' ') || key.code == KeyCode::Char('c') || key.code == KeyCode::Char('e') {
        shared_key(a, b, key, index, entries, effect)
    } else {
        &&& effect == KeyEffect::Nothing
        &&& match key.code {
            KeyCode::Up | KeyCode::Char('k') => scrolled_logs_older(a, b, count as usize, 1),
            KeyCode::Down | KeyCode::Char('j') => scrolled_logs_newer(a, b, 1),
            KeyCode::PageUp => scrolled_logs_older(a, b, count as usize, 10),
            KeyCode::PageDown => scrolled_logs_newer(a, b, 10),
            KeyCode::Home => if count == 0 {
                only_message(a, b, log_empty_message(a.log_tab))
            } else {
                only_message(
                    TuiState { log_scroll_offset: (count - 1) as usize, ..a },
                    b,
                    log_message("oldest "@, a.log_tab),
                )
            },
            KeyCode::End => only_message(
                TuiState { log_scroll_offset: 0, ..a },
                b,
                log_message("following "@, a.log_tab),
            ),
            KeyCode::Tab | KeyCode::BackTab => switched_log_tab(a, b),
            KeyCode::Esc => only_message(TuiState { screen: Screen::List, ..a }, b, Seq::empty()),
            KeyCode::Char('y') => copied_logs(a, b, p, t),
            _ => only_message(a, b, "Log mode: Up/Down scroll, Tab page, y copy logs, Esc or l back."@),
        }
    }
}

fn handle_log_key(
    key: KeyPress,
    state: &mut TuiState,
    index: &FilterIndex,
    entries: &[TrafficEntry],
    p: &ChildLogSnapshot,
    t: &TlscopeLogSnapshot,
) -> (effect: KeyEffect)
    ensures
        log_key_done(*old(state), *final(state), key, *index, entries@, *p, *t, effect),
{
    if key.code == KeyCode::Char(' ') || key.code == KeyCode::Char('c') || key.code == KeyCode::Char('e') {
        return handle_shared_key(key, state, index, entries);
    }
    let count = match state.log_tab {
        LogTab::Process => p.lines.len(),
        LogTab::Tlscope => t.lines.len(),
    };
    match key.code {
        KeyCode::Up | KeyCode::Char('k') => scroll_logs_older(state, count, 1),
        KeyCode::Down | KeyCode::Char('j') => scroll_logs_newer(state, 1),
        KeyCode::PageUp => scroll_logs_older(state, count, 10),
        KeyCode::PageDown => scroll_logs_newer(state, 10),
        KeyCode::Home => {
            if count == 0 {
                let m = state.log_tab.empty_message();
                set_message(state, m);
            } else {
                state.log_scroll_offset = count - 1;
                set_log_message(state, "oldest ");
            }
        },
        KeyCode::End => {
            state.log_scroll_offset = 0;
            set_log_message(state, "following ");
        },
        KeyCode::Tab => switch_log_tab(state, key.shift),
        KeyCode::BackTab => switch_log_tab(state, true),
        KeyCode::Esc => {
            state.screen = Screen::List;
            state.message = String::new();
        },
        KeyCode::Char('y') => copy_current_logs(state, p, t),
        _ => set_message(state, "Log mode: Up/Down scroll, Tab page, y copy logs, Esc or l back."),
    }
    KeyEffect::Nothing
}

// ---------------------------------------------------------------------------
// Dispatch
// ---------------------------------------------------------------------------

/// What a key press does: the quit question first, then filter editing, then the
/// keys every screen shares (`q` asks to quit, `?` shows help, `l` toggles the
/// logs), then the current screen's keys.
pub open spec fn key_handled(
    a: TuiState,
    b: TuiState,
    key: KeyPress,
    index: FilterIndex,
    entries: Seq<TrafficEntry>,
    p: ChildLogSnapshot,
    t: TlscopeLogSnapshot,
    effect: KeyEffect,
) -> bool {
    if a.confirm_quit {
        quit_chosen(a, b, key, effect)
    } else if a.entering_filter {
        filter_key_done(a, b, key, index) && effect == KeyEffect::Nothing
    } else if key.code == KeyCode::Char('q') {
        b == (TuiState { confirm_quit: true, ..a }) && effect == KeyEffect::Nothing
    } else if key.code == KeyCode::Char('?') {
        only_message(TuiState { screen: Screen::Help, ..a }, b, Seq::empty()) && effect == KeyEffect::Nothing
    } else if key.code == KeyCode::Char('l') {
        &&& effect == KeyEffect::Nothing
        &&& if a.screen == Screen::Logs {
            only_message(TuiState { screen: Screen::List, ..a }, b, "request list"@)
        } else {
            only_message(
                TuiState { screen: Screen::Logs, log_scroll_offset: 0, ..a },
                b,
                log_message(Seq::empty(), a.log_tab),
            )
        }
    } else {
        match a.screen {
            Screen::Logs => log_key_done(a, b, key, index, entries, p, t, effect),
            Screen::Details => detail_key_done(a, b, key, index, entries, effect),
            Screen::Help => help_key_done(a, b, key) && effect == KeyEffect::Nothing,
            Screen::List => list_key_done(a, b, key, index, entries, effect),
        }
    }
}

/// Handles a key press. `index` is the traffic store's filter index, `entries` the
/// filtered entries on screen, `process_logs` and `tlscope_logs` the log snapshots.
pub fn handle_key(
    key: KeyPress,
    state: &mut TuiState,
    index: &FilterIndex,
    entries: &[TrafficEntry],
    process_logs: &ChildLogSnapshot,
    tlscope_logs: &TlscopeLogSnapshot,
) -> (effect: KeyEffect)
    ensures
        key_handled(*old(state), *final(state), key, *index, entries@, *process_logs, *tlscope_logs, effect),
{
    if state.confirm_quit {
        return handle_quit_choice(key, state);
    }
    if state.entering_filter {
        handle_filter_key(key, state, index);
        return KeyEffect::Nothing;
    }
    match key.code {
        KeyCode::Char('q') => {
            state.confirm_quit = true;
            return KeyEffect::Nothing;
        },
        KeyCode::Char('?') => {
            state.screen = Screen::Help;
            state.message = String::new();
            return KeyEffect::Nothing;
        },
        KeyCode::Char('l') => {
            if state.screen == Screen::Logs {
                state.screen = Screen::List;
                set_message(state, "request list");
            } else {
                state.screen = Screen::Logs;
                state.log_scroll_offset = 0;
                set_log_message(state, "");
                proof {
                    reveal_strlit("");
                    assert(""@ =~= Seq::<char>::empty());
                }
            }
            return KeyEffect::Nothing;
        },
        _ => {},
    }
    match state.screen {
        Screen::Logs => handle_log_key(key, state, index, entries, process_logs, tlscope_logs),
        Screen::Details => handle_detail_key(key, state, index, entries),
        Screen::Help => {
            handle_help_key(key, state);
            KeyEffect::Nothing
        },
        Screen::List => handle_list_key(key, state, index, entries),
    }
}

} // verus!
