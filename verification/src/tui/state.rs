//! The screens, tabs and state of the terminal interface.

use crate::capture::filter_suggestions::ParseStateModel;
use crate::capture::store::{ConditionModel, TrafficFilter};
use crate::tui::filter::FilterEditorState;
use vstd::prelude::*;

verus! {

/// How the interface was left.
#[derive(Debug, Clone, Copy, PartialEq, Eq, Structural)]
pub enum TuiExit {
    Quit,
    TerminateChild,
    LeaveChildRunning,
}

/// The screen that is shown.
#[derive(Debug, Clone, Copy, PartialEq, Eq, Structural)]
pub enum Screen {
    List,
    Details,
    Logs,
    Help,
}

/// Which log the log screen shows.
#[derive(Debug, Clone, Copy, PartialEq, Eq, Structural)]
pub enum LogTab {
    Process,
    Tlscope,
}

impl LogTab {
    /// The tab's title.
    pub fn title(self) -> (r: &'static str)
        ensures
            r@ == (match self {
                LogTab::Process => "Process"@,
                LogTab::Tlscope => "TLScope"@,
            }),
    {
        match self {
            LogTab::Process => "Process",
            LogTab::Tlscope => "TLScope",
        }
    }

    /// The name of the log in messages.
    pub fn label(self) -> (r: &'static str)
        ensures
            r@ == log_label(self),
    {
        match self {
            LogTab::Process => "process",
            LogTab::Tlscope => "TLScope",
        }
    }

    /// What the screen says while the log is empty.
    pub fn empty_message(self) -> (r: &'static str)
        ensures
            r@ == log_empty_message(self),
    {
        match self {
            LogTab::Process => "No process logs captured yet.",
            LogTab::Tlscope => "No TLScope logs captured yet.",
        }
    }

    /// The other tab.
    pub fn next(self) -> (r: Self)
        ensures
            r == other_log_tab(self),
    {
        match self {
            LogTab::Process => LogTab::Tlscope,
            LogTab::Tlscope => LogTab::Process,
        }
    }

    /// The other tab: with two tabs, the same as `next`.
    pub fn previous(self) -> (r: Self)
        ensures
            r == other_log_tab(self),
    {
        self.next()
    }
}

/// The name of a log tab.
pub open spec fn log_label(t: LogTab) -> Seq<char> {
    match t {
        LogTab::Process => "process"@,
        LogTab::Tlscope => "TLScope"@,
    }
}

/// What a log tab shows when it holds no line.
pub open spec fn log_empty_message(t: LogTab) -> Seq<char> {
    match t {
        LogTab::Process => "No process logs captured yet."@,
        LogTab::Tlscope => "No TLScope logs captured yet."@,
    }
}

/// The log tab that Tab switches to.
pub open spec fn other_log_tab(t: LogTab) -> LogTab {
    match t {
        LogTab::Process => LogTab::Tlscope,
        LogTab::Tlscope => LogTab::Process,
    }
}

/// The tabs of the detail screen.
#[derive(Debug, Clone, Copy, PartialEq, Eq, Structural)]
pub enum DetailTab {
    Overview,
    Request,
    Response,
    Tls,
    Timing,
    Raw,
}

/// The tab to the right of `t`, wrapping from the last to the first.
pub open spec fn next_detail_tab(t: DetailTab) -> DetailTab {
    match t {
        DetailTab::Overview => DetailTab::Request,
        DetailTab::Request => DetailTab::Response,
        DetailTab::Response => DetailTab::Tls,
        DetailTab::Tls => DetailTab::Timing,
        DetailTab::Timing => DetailTab::Raw,
        DetailTab::Raw => DetailTab::Overview,
    }
}

/// The tab to the left of `t`, wrapping from the first to the last.
pub open spec fn previous_detail_tab(t: DetailTab) -> DetailTab {
    match t {
        DetailTab::Overview => DetailTab::Raw,
        DetailTab::Request => DetailTab::Overview,
        DetailTab::Response => DetailTab::Request,
        DetailTab::Tls => DetailTab::Response,
        DetailTab::Timing => DetailTab::Tls,
        DetailTab::Raw => DetailTab::Timing,
    }
}

/// The title of a detail tab.
pub open spec fn detail_title(t: DetailTab) -> Seq<char> {
    match t {
        DetailTab::Overview => "Overview"@,
        DetailTab::Request => "Request"@,
        DetailTab::Response => "Response"@,
        DetailTab::Tls => "TLS"@,
        DetailTab::Timing => "Timing"@,
        DetailTab::Raw => "Raw"@,
    }
}

impl DetailTab {
    /// The tab's title.
    pub fn title(self) -> (r: &'static str)
        ensures
            r@ == detail_title(self),
    {
        match self {
            DetailTab::Overview => "Overview",
            DetailTab::Request => "Request",
            DetailTab::Response => "Response",
            DetailTab::Tls => "TLS",
            DetailTab::Timing => "Timing",
            DetailTab::Raw => "Raw",
        }
    }

    /// The tab to the right, wrapping from the last to the first.
    pub fn next(self) -> (r: Self)
        ensures
            r == next_detail_tab(self),
    {
        match self {
            DetailTab::Overview => DetailTab::Request,
            DetailTab::Request => DetailTab::Response,
            DetailTab::Response => DetailTab::Tls,
            DetailTab::Tls => DetailTab::Timing,
            DetailTab::Timing => DetailTab::Raw,
            DetailTab::Raw => DetailTab::Overview,
        }
    }

    /// The tab to the left, wrapping from the first to the last.
    pub fn previous(self) -> (r: Self)
        ensures
            r == previous_detail_tab(self),
    {
        match self {
            DetailTab::Overview => DetailTab::Raw,
            DetailTab::Request => DetailTab::Overview,
            DetailTab::Response => DetailTab::Request,
            DetailTab::Tls => DetailTab::Response,
            DetailTab::Timing => DetailTab::Tls,
            DetailTab::Raw => DetailTab::Timing,
        }
    }
}

/// Moving to the next detail tab and then to the previous one, or the other way
/// round, comes back to the same tab; six moves to the right go round the cycle.
pub proof fn lemma_detail_tab_cycle(t: DetailTab)
    ensures
        previous_detail_tab(next_detail_tab(t)) == t,
        next_detail_tab(previous_detail_tab(t)) == t,
        next_detail_tab(next_detail_tab(next_detail_tab(next_detail_tab(next_detail_tab(
            next_detail_tab(t),
        ))))) == t,
{
}

/// Switching the log tab twice comes back to the same tab.
pub proof fn lemma_log_tab_cycle(t: LogTab)
    ensures
        other_log_tab(other_log_tab(t)) == t,
{
}

/// Text for the clipboard, with the name of what it holds.
#[derive(Debug, Clone)]
pub struct ClipboardRequest {
    pub label: &'static str,
    pub text: String,
}

/// Everything the interface remembers between key presses.
#[derive(Debug, Clone)]
pub struct TuiState {
    pub selected: usize,
    pub paused: bool,
    pub screen: Screen,
    pub tab: DetailTab,
    pub applied_filter_text: String,
    pub applied_filter: TrafficFilter,
    pub filter_editor: FilterEditorState,
    pub entering_filter: bool,
    pub message: String,
    pub confirm_quit: bool,
    pub log_tab: LogTab,
    pub log_scroll_offset: usize,
    pub detail_scroll_offset: usize,
    pub clipboard_request: Option<ClipboardRequest>,
}

impl Default for TuiState {
    fn default() -> (r: Self)
        ensures
            r.selected == 0,
            !r.paused,
            r.screen == Screen::List,
            r.tab == DetailTab::Overview,
            r.applied_filter_text@.len() == 0,
            r.applied_filter@ == Seq::<ConditionModel>::empty(),
            r.filter_editor.text@.len() == 0,
            r.filter_editor.cursor == 0,
            r.filter_editor.suggestions@.len() == 0,
            r.filter_editor.parse_state@ == ParseStateModel::Valid,
            r.filter_editor.error is None,
            !r.entering_filter,
            r.message@.len() == 0,
            !r.confirm_quit,
            r.log_tab == LogTab::Process,
            r.log_scroll_offset == 0,
            r.detail_scroll_offset == 0,
            r.clipboard_request is None,
    {
        TuiState {
            selected: 0,
            paused: false,
            screen: Screen::List,
            tab: DetailTab::Overview,
            applied_filter_text: String::new(),
            applied_filter: TrafficFilter::new(),
            filter_editor: FilterEditorState::default(),
            entering_filter: false,
            message: String::new(),
            confirm_quit: false,
            log_tab: LogTab::Process,
            log_scroll_offset: 0,
            detail_scroll_offset: 0,
            clipboard_request: None,
        }
    }
}

} // verus!
