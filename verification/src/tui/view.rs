//! What the interface draws that is worked out rather than laid out: how far a
//! detail panel scrolls and which key hint the footer shows.

use crate::text;
use crate::tui::events::text_lines;
use crate::capture::filter_suggestions::FilterParseState;
use crate::tui::filter::FilterEditorState;
use crate::tui::state::{Screen, TuiState};
use vstd::prelude::*;

verus! {

/// How many screen lines of `width` columns the lines take: each at least one,
/// a line of `n` characters `ceil(n / width)`.
pub open spec fn wrapped_lines_in(ls: Seq<Seq<char>>, width: nat) -> nat
    decreases ls.len(),
{
    if ls.len() == 0 {
        0
    } else {
        let n = if ls.last().len() < 1 { 1 } else { ls.last().len() };
        wrapped_lines_in(ls.drop_last(), width) + ((n + width - 1) / (width as int)) as nat
    }
}

/// The inner size of a bordered panel of `outer` cells: two less, at least one.
pub open spec fn inner_size(outer: u16) -> nat {
    if outer < 3 { 1 } else { (outer - 2) as nat }
}

/// How far a bordered panel of `width` by `height` cells can scroll through a text:
/// its wrapped lines (at least one) less the lines that fit, or 0.
pub open spec fn max_scroll_of(s: Seq<char>, width: u16, height: u16) -> nat {
    let total = wrapped_lines_in(text_lines(s), inner_size(width));
    let visual = if total < 1 { 1 } else { total };
    let h = inner_size(height);
    if visual > h { (visual - h) as nat } else { 0 }
}

/// A count of screen lines past which the result is `usize::MAX` anyway.
const SCROLL_CAP: u128 = 0x1_0000_0000_0000_0000_0000_0000;

spec fn capped(n: nat) -> u128 {
    if n > SCROLL_CAP { SCROLL_CAP } else { n as u128 }
}

/// How far a bordered panel of `width` by `height` cells can scroll through a text,
/// `usize::MAX` at most.
pub fn max_scroll_offset(t: &str, width: u16, height: u16) -> (r: usize)
    ensures
        r == (if max_scroll_of(t@, width, height) > usize::MAX {
            usize::MAX as nat
        } else {
            max_scroll_of(t@, width, height)
        }),
{
    let inner_width: u128 = if width < 3 { 1 } else { (width - 2) as u128 };
    let inner_height: u128 = if height < 3 { 1 } else { (height - 2) as u128 };
    let parts = text::split_char(t, '\n');
    let ghost ps = text::views(parts@);
    let np = parts.len();
    proof {
        reveal_with_fuel(text::split, 2);
        assert(ps.len() >= 1);
    }
    let n = if parts[np - 1].as_str().is_empty() { np - 1 } else { np };
    let ghost ls = text_lines(t@);
    let mut total: u128 = 0;
    let mut i: usize = 0;
    proof {
        assert(ls.take(0) =~= Seq::<Seq<char>>::empty());
    }
    while i < n
        invariant
            0 <= i <= n <= np,
            np == parts@.len(),
            ps == text::views(parts@),
            ps == text::split(t@, '\n'),
            ls == text_lines(t@),
            ls.len() == n,
            1 <= inner_width <= 0xffff,
            inner_width == inner_size(width),
            total == capped(wrapped_lines_in(ls.take(i as int), inner_width as nat)),
        decreases n - i,
    {
        let v = text::chars_of(parts[i].as_str());
        let mut len = v.len();
        if i < np - 1 && len > 0 && v[len - 1] == '\r' {
            len = len - 1;
        }
        let w: usize = if len < 1 { 1 } else { len };
        proof {
            assert(ps[i as int] == parts@[i as int]@);
            assert(ls[i as int].len() == len);
            assert(ls.take(i + 1).drop_last() =~= ls.take(i as int));
        }
        let term: u128 = ((w as u128) + inner_width - 1) / inner_width;
        proof {
            let num: int = w as int + inner_width as int - 1;
            assert(term == num / (inner_width as int));
            assert(num / (inner_width as int) <= num) by (nonlinear_arith)
                requires
                    inner_width >= 1,
                    num >= 0,
            ;
            assert(w <= usize::MAX);
            assert(term <= 0x2_0000_0000_0000_0000);
        }
        total = if total + term > SCROLL_CAP { SCROLL_CAP } else { total + term };
        i = i + 1;
    }
    proof {
        assert(ls.take(n as int) =~= ls);
    }
    let visual: u128 = if total < 1 { 1 } else { total };
    let r: u128 = if visual > inner_height { visual - inner_height } else { 0 };
    if r > usize::MAX as u128 {
        usize::MAX
    } else {
        r as usize
    }
}

/// The key hint for what the interface shows.
pub open spec fn footer_hint_of(confirm_quit: bool, entering_filter: bool, screen: Screen) -> Seq<char> {
    if confirm_quit {
        "1 stop child | 2 leave child | 3/Esc cancel"@
    } else if entering_filter {
        "type filter | Backspace delete | Enter apply | Esc cancel"@
    } else {
        match screen {
            Screen::List => "Up/Down/j/k select | PgUp/PgDn page | Home/End jump | Enter inspect | ? help | q quit"@,
            Screen::Details => "Up/Down scroll | PgUp/PgDn page | Home/End jump | Tab switch | Esc list | ? help | q quit"@,
            Screen::Logs => "Up/Down/j/k scroll | PgUp/PgDn page | Home/End jump | Esc/l list | ? help | q quit"@,
            Screen::Help => "Esc back | l logs | ? help | q quit"@,
        }
    }
}

/// The key hint for what the interface shows: the quit choices, the filter keys
/// while one is typed, else the keys of the screen.
pub fn footer_hint(state: &TuiState) -> (r: &'static str)
    ensures
        r@ == footer_hint_of(state.confirm_quit, state.entering_filter, state.screen),
{
    if state.confirm_quit {
        return "1 stop child | 2 leave child | 3/Esc cancel";
    }
    if state.entering_filter {
        return "type filter | Backspace delete | Enter apply | Esc cancel";
    }
    match state.screen {
        Screen::List => "Up/Down/j/k select | PgUp/PgDn page | Home/End jump | Enter inspect | ? help | q quit",
        Screen::Details => "Up/Down scroll | PgUp/PgDn page | Home/End jump | Tab switch | Esc list | ? help | q quit",
        Screen::Logs => "Up/Down/j/k scroll | PgUp/PgDn page | Home/End jump | Esc/l list | ? help | q quit",
        Screen::Help => "Esc back | l logs | ? help | q quit",
    }
}

/// How a row under the filter is drawn.
#[derive(Debug, Clone, Copy, PartialEq, Eq, Structural)]
pub enum RowTone {
    Error,
    Selected,
    Plain,
}

/// A row shown under the filter while it is typed.
#[derive(Debug)]
pub struct SuggestionRow {
    pub text: String,
    pub tone: RowTone,
}

/// The error shown above the suggestions: the editor's error, or, when there is
/// no suggestion, why the text does not parse.
pub open spec fn suggestion_error_of(e: FilterEditorState) -> Option<Seq<char>> {
    match e.error {
        Some(m) => Some(m@),
        None => if e.suggestions@.len() == 0 {
            match e.parse_state {
                FilterParseState::Invalid(m) => Some(m@),
                _ => None,
            }
        } else {
            None
        },
    }
}

/// How many suggestions are shown: those from the scroll position on, within the
/// seven rows that the error row leaves.
pub open spec fn visible_suggestions_of(e: FilterEditorState) -> nat {
    let slots: nat = if suggestion_error_of(e) is Some { 6 } else { 7 };
    let avail: nat = if e.suggestions@.len() > e.suggestion_scroll {
        (e.suggestions@.len() - e.suggestion_scroll) as nat
    } else {
        0
    };
    if avail < slots { avail } else { slots }
}

/// The rows under the filter while it is typed: the error, if any, as `! error`,
/// then the visible suggestions, the selected one marked with `> ` and the others
/// indented by two spaces.
pub fn suggestion_rows(state: &TuiState) -> (r: Vec<SuggestionRow>)
    ensures
        !state.entering_filter ==> r@.len() == 0,
        state.entering_filter ==> {
            let e = state.filter_editor;
            let err_rows: int = if suggestion_error_of(e) is Some { 1 } else { 0 };
            &&& r@.len() == err_rows + visible_suggestions_of(e)
            &&& (suggestion_error_of(e) matches Some(m) ==> r@[0].text@ == "! "@ + m && r@[0].tone == RowTone::Error)
            &&& forall|k: int|
                0 <= k < visible_suggestions_of(e) ==> {
                    let i = e.suggestion_scroll + k;
                    let selected = i == e.selected_suggestion;
                    &&& (#[trigger] r@[err_rows + k]).text@ == (if selected { "> "@ } else { "  "@ })
                        + e.suggestions@[i].display@
                    &&& r@[err_rows + k].tone == (if selected { RowTone::Selected } else { RowTone::Plain })
                }
        },
{
    let mut rows: Vec<SuggestionRow> = Vec::new();
    if !state.entering_filter {
        return rows;
    }
    let e = &state.filter_editor;
    let error: Option<String> = match &e.error {
        Some(m) => Some(m.clone()),
        None => if e.suggestions.len() == 0 {
            match &e.parse_state {
                FilterParseState::Invalid(m) => Some(m.clone()),
                _ => None,
            }
        } else {
            None
        },
    };
    let slots: usize = if error.is_some() { 6 } else { 7 };
    let avail: usize = if e.suggestions.len() > e.suggestion_scroll { e.suggestions.len() - e.suggestion_scroll } else { 0 };
    let visible: usize = if avail < slots { avail } else { slots };
    let ghost err_rows: int = if error.is_some() { 1 } else { 0 };
    match &error {
        Some(m) => {
            let mut t = text::to_owned("! ");
            text::push_str(&mut t, m.as_str());
            rows.push(SuggestionRow { text: t, tone: RowTone::Error });
        },
        None => {},
    }
    let n_suggestions = e.suggestions.len();
    let mut k: usize = 0;
    while k < visible
        invariant
            0 <= k <= visible,
            n_suggestions == e.suggestions@.len(),
            visible == visible_suggestions_of(state.filter_editor),
            visible == 0 || visible + e.suggestion_scroll <= e.suggestions@.len(),
            err_rows == (if suggestion_error_of(state.filter_editor) is Some { 1int } else { 0int }),
            rows@.len() == err_rows + k,
            *e == state.filter_editor,
            suggestion_error_of(state.filter_editor) matches Some(m) ==> rows@[0].text@ == "! "@ + m && rows@[0].tone
                == RowTone::Error,
            forall|q: int|
                0 <= q < k ==> {
                    let i = e.suggestion_scroll + q;
                    let selected = i == e.selected_suggestion;
                    &&& (#[trigger] rows@[err_rows + q]).text@ == (if selected { "> "@ } else { "  "@ })
                        + e.suggestions@[i].display@
                    &&& rows@[err_rows + q].tone == (if selected { RowTone::Selected } else { RowTone::Plain })
                },
        decreases visible - k,
    {
        let i = e.suggestion_scroll + k;
        let selected = i == e.selected_suggestion;
        let mut t = if selected { text::to_owned("> ") } else { text::to_owned("  ") };
        text::push_str(&mut t, e.suggestions[i].display.as_str());
        let tone = if selected { RowTone::Selected } else { RowTone::Plain };
        rows.push(SuggestionRow { text: t, tone });
        k = k + 1;
    }
    rows
}

/// The title of the filter box: while typing, whether the text is an error,
/// invalid, incomplete or valid.
pub fn filter_title(state: &TuiState) -> (r: &'static str)
    ensures
        r@ == (if !state.entering_filter {
            "Filter"@
        } else if state.filter_editor.error is Some {
            "Filter (editing, error)"@
        } else {
            match state.filter_editor.parse_state {
                FilterParseState::Valid => "Filter (editing)"@,
                FilterParseState::Incomplete => "Filter (editing, incomplete)"@,
                FilterParseState::Invalid(_) => "Filter (editing, invalid)"@,
            }
        }),
{
    if !state.entering_filter {
        return "Filter";
    }
    if state.filter_editor.error.is_some() {
        return "Filter (editing, error)";
    }
    match &state.filter_editor.parse_state {
        FilterParseState::Valid => "Filter (editing)",
        FilterParseState::Incomplete => "Filter (editing, incomplete)",
        FilterParseState::Invalid(_) => "Filter (editing, invalid)",
    }
}

/// How the filter box is drawn: red while the typed text is wrong, yellow while it
/// is typed, plain otherwise.
pub fn filter_tone(state: &TuiState) -> (r: RowTone)
    ensures
        r == (if !state.entering_filter {
            RowTone::Plain
        } else if state.filter_editor.error is Some || state.filter_editor.parse_state is Invalid {
            RowTone::Error
        } else {
            RowTone::Selected
        }),
{
    if !state.entering_filter {
        RowTone::Plain
    } else if state.filter_editor.error.is_some() || matches!(state.filter_editor.parse_state, FilterParseState::Invalid(_)) {
        RowTone::Error
    } else {
        RowTone::Selected
    }
}

/// The part of the request list that is shown in a table `height` cells high:
/// the selection kept within the list, the first row shown and how many are shown,
/// so that the selection is on screen.
pub open spec fn list_window_of(n: nat, selected: nat, height: u16) -> (nat, nat, nat) {
    let rows: nat = if height > 4 { (height - 3) as nat } else { 1 };
    let safe: nat = if n == 0 { 0 } else if selected < n { selected } else { (n - 1) as nat };
    let first: nat = if n == 0 || safe < rows { 0 } else { (safe + 1 - rows) as nat };
    let count: nat = if first + rows <= n { rows } else { (n - first) as nat };
    (safe, first, count)
}

/// The part of the request list that is shown in a table `height` cells high.
pub fn list_window(n: usize, selected: usize, height: u16) -> (r: (usize, usize, usize))
    ensures
        (r.0 as nat, r.1 as nat, r.2 as nat) == list_window_of(n as nat, selected as nat, height),
{
    let rows: usize = if height > 4 { (height - 3) as usize } else { 1 };
    let safe: usize = if n == 0 { 0 } else if selected < n { selected } else { n - 1 };
    let first: usize = if n == 0 || safe < rows { 0 } else { safe + 1 - rows };
    let count: usize = if first <= n && rows <= n - first { rows } else { n - first };
    (safe, first, count)
}

/// The colour of a request in the list.
#[derive(Debug, Clone, Copy, PartialEq, Eq, Structural)]
pub enum EntryTone {
    /// Failed, or a 5xx answer.
    Red,
    /// A 2xx answer.
    Green,
    /// A 3xx answer.
    Cyan,
    /// A 4xx answer.
    Yellow,
    /// Still open: no answer yet.
    Blue,
    Plain,
}

/// The colour of a request: red on an error, then by status class, blue while open.
pub open spec fn entry_tone_of(has_error: bool, status: Option<u16>) -> EntryTone {
    if has_error {
        EntryTone::Red
    } else {
        match status {
            Some(s) => if 200 <= s <= 299 {
                EntryTone::Green
            } else if 300 <= s <= 399 {
                EntryTone::Cyan
            } else if 400 <= s <= 499 {
                EntryTone::Yellow
            } else if 500 <= s <= 599 {
                EntryTone::Red
            } else {
                EntryTone::Plain
            },
            None => EntryTone::Blue,
        }
    }
}

/// The colour of a request in the list.
pub fn entry_tone(has_error: bool, status: Option<u16>) -> (r: EntryTone)
    ensures
        r == entry_tone_of(has_error, status),
{
    if has_error {
        return EntryTone::Red;
    }
    match status {
        Some(s) => if 200 <= s && s <= 299 {
            EntryTone::Green
        } else if 300 <= s && s <= 399 {
            EntryTone::Cyan
        } else if 400 <= s && s <= 499 {
            EntryTone::Yellow
        } else if 500 <= s && s <= 599 {
            EntryTone::Red
        } else {
            EntryTone::Plain
        },
        None => EntryTone::Blue,
    }
}

/// The first log line shown in a panel `height` cells high when scrolled
/// `scroll_offset` lines back from the newest.
pub open spec fn log_top_of(lines: nat, height: u16, scroll_offset: nat) -> nat {
    let visible: nat = if height > 2 { (height - 2) as nat } else { 0 };
    let max_top: nat = if lines > visible { (lines - visible) as nat } else { 0 };
    let back: nat = if scroll_offset < max_top { scroll_offset } else { max_top };
    (max_top - back) as nat
}

/// The first log line shown in a panel `height` cells high.
pub fn log_scroll_top(lines: usize, height: u16, scroll_offset: usize) -> (r: usize)
    ensures
        r == log_top_of(lines as nat, height, scroll_offset as nat),
{
    let visible: usize = if height > 2 { (height - 2) as usize } else { 0 };
    let max_top: usize = if lines > visible { lines - visible } else { 0 };
    let back: usize = if scroll_offset < max_top { scroll_offset } else { max_top };
    max_top - back
}

/// The title of a log panel: how many lines are shown, and, when some were dropped,
/// the total and the dropped count.
pub open spec fn log_title_of(name: Seq<char>, shown: nat, total: nat, dropped: nat) -> Seq<char> {
    if dropped > 0 {
        name + " logs ("@ + text::decimal(shown) + " shown / "@ + text::decimal(total) + " total, "@
            + text::decimal(dropped) + " dropped)"@
    } else {
        name + " logs ("@ + text::decimal(shown) + " lines)"@
    }
}

/// The title of a log panel.
pub fn log_title(name: &str, shown: usize, total: usize, dropped: usize) -> (r: String)
    ensures
        r@ == log_title_of(name@, shown as nat, total as nat, dropped as nat),
{
    let mut r = text::to_owned(name);
    text::push_str(&mut r, " logs (");
    text::push_decimal(&mut r, shown as u64);
    if dropped > 0 {
        text::push_str(&mut r, " shown / ");
        text::push_decimal(&mut r, total as u64);
        text::push_str(&mut r, " total, ");
        text::push_decimal(&mut r, dropped as u64);
        text::push_str(&mut r, " dropped)");
    } else {
        text::push_str(&mut r, " lines)");
    }
    r
}

/// The footer: live or paused, the message if there is one, and the key hint.
pub fn footer_text(state: &TuiState) -> (r: String)
    ensures
        r@ == (if state.paused { "PAUSED"@ } else { "LIVE"@ }) + " | "@ + (if state.message@.len() == 0 {
            Seq::empty()
        } else {
            state.message@ + " | "@
        }) + footer_hint_of(state.confirm_quit, state.entering_filter, state.screen),
{
    let mut r = if state.paused { text::to_owned("PAUSED") } else { text::to_owned("LIVE") };
    text::push_str(&mut r, " | ");
    let ghost before = r@;
    if !state.message.as_str().is_empty() {
        text::push_str(&mut r, state.message.as_str());
        text::push_str(&mut r, " | ");
    } else {
        assert(r@ == before + Seq::<char>::empty());
    }
    text::push_str(&mut r, footer_hint(state));
    r
}

} // verus!
