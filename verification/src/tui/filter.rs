//! The filter editor: a one-line text field with completion suggestions.

use crate::capture::filter_suggestions::{
    before_cursor, build_filter_suggestions, current_token, filter_parse_state, parse_state_of,
    suggestions_for, suggestions_view, token_chars, token_end, token_range, token_start, FilterParseState, FilterSuggestion,
    ParseStateModel, SuggestionView,
};
use crate::capture::store::FilterIndex;
use crate::text;
use vstd::prelude::*;

verus! {

/// How many suggestions the popup shows at once.
pub const MAX_VISIBLE_SUGGESTIONS: usize = 7;

/// The filter text being edited, its cursor (a byte offset), the completion popup
/// and the live parse state.
#[derive(Debug, Clone)]
pub struct FilterEditorState {
    pub text: String,
    pub cursor: usize,
    pub horizontal_offset: usize,
    pub suggestions: Vec<FilterSuggestion>,
    pub selected_suggestion: usize,
    pub suggestion_scroll: usize,
    pub parse_state: FilterParseState,
    pub error: Option<String>,
}

impl Default for FilterEditorState {
    fn default() -> (r: Self)
        ensures
            r.text@.len() == 0,
            r.cursor == 0,
            r.horizontal_offset == 0,
            r.suggestions@.len() == 0,
            r.selected_suggestion == 0,
            r.suggestion_scroll == 0,
            r.parse_state@ == ParseStateModel::Valid,
            r.error is None,
    {
        FilterEditorState {
            text: String::new(),
            cursor: 0,
            horizontal_offset: 0,
            suggestions: Vec::new(),
            selected_suggestion: 0,
            suggestion_scroll: 0,
            parse_state: FilterParseState::Valid,
            error: None,
        }
    }
}

/// The visible part of the filter text and where the cursor is drawn.
#[derive(Debug, Clone)]
pub struct FilterView {
    pub text: String,
    pub cursor_column: u16,
}

/// Scrolls the popup so that the selected suggestion is visible.
pub open spec fn keep_visible(selected: usize, scroll: usize) -> usize {
    if selected < scroll {
        selected
    } else if selected - scroll >= MAX_VISIBLE_SUGGESTIONS {
        (selected + 1 - MAX_VISIBLE_SUGGESTIONS) as usize
    } else {
        scroll
    }
}

/// The selection after the suggestion list changed to `n` items: it stays where it
/// was when possible, else moves to the last item, and the popup scrolls to it.
pub open spec fn selection_clamped(old_sel: usize, old_scroll: usize, n: nat, sel: usize, scroll: usize) -> bool {
    if n == 0 {
        sel == 0 && scroll == 0
    } else {
        let s = if old_sel < n { old_sel } else { (n - 1) as usize };
        sel == s && scroll == keep_visible(s, old_scroll)
    }
}

/// The suggestions for a text and a cursor that is on a character boundary.
pub open spec fn suggestions_at(s: Seq<char>, cursor: int, index: FilterIndex) -> Seq<SuggestionView> {
    suggestions_for(
        before_cursor(s, cursor),
        text::views(index.hosts@),
        index.statuses@,
        text::views(index.content_types@),
    )
}

/// The cursor moved down to a character boundary within the text.
pub open spec fn clamped_cursor(s: Seq<char>, cursor: int) -> nat {
    text::byte_offset(s, text::chars_within(s, cursor) as int)
}

/// The state after refreshing an editor whose text was `s`, its cursor `cursor` and
/// its selection `old_sel`/`old_scroll`: the cursor is moved to a character boundary
/// within the text, and the parse state and the suggestions are recomputed.
pub open spec fn refreshed_from(
    s: Seq<char>,
    cursor: int,
    old_sel: usize,
    old_scroll: usize,
    new: FilterEditorState,
    index: FilterIndex,
) -> bool {
    let c = clamped_cursor(s, cursor);
    let sugg = suggestions_at(s, c as int, index);
    &&& new.text@ == s
    &&& new.cursor == c
    &&& new.parse_state@ == parse_state_of(s)
    &&& suggestions_view(new.suggestions@) == sugg
    &&& selection_clamped(old_sel, old_scroll, sugg.len(), new.selected_suggestion, new.suggestion_scroll)
}

fn keep_selected_visible(editor: &mut FilterEditorState)
    ensures
        final(editor).suggestion_scroll == keep_visible(
            old(editor).selected_suggestion,
            old(editor).suggestion_scroll,
        ),
        final(editor).text == old(editor).text,
        final(editor).cursor == old(editor).cursor,
        final(editor).horizontal_offset == old(editor).horizontal_offset,
        final(editor).suggestions == old(editor).suggestions,
        final(editor).selected_suggestion == old(editor).selected_suggestion,
        final(editor).parse_state == old(editor).parse_state,
        final(editor).error == old(editor).error,
{
    if editor.selected_suggestion < editor.suggestion_scroll {
        editor.suggestion_scroll = editor.selected_suggestion;
    } else if editor.selected_suggestion - editor.suggestion_scroll >= MAX_VISIBLE_SUGGESTIONS {
        editor.suggestion_scroll = editor.selected_suggestion - (MAX_VISIBLE_SUGGESTIONS - 1);
    }
}

fn clamp_suggestion_selection(editor: &mut FilterEditorState)
    ensures
        final(editor).text == old(editor).text,
        final(editor).cursor == old(editor).cursor,
        final(editor).horizontal_offset == old(editor).horizontal_offset,
        final(editor).suggestions == old(editor).suggestions,
        final(editor).parse_state == old(editor).parse_state,
        final(editor).error == old(editor).error,
        if old(editor).suggestions@.len() == 0 {
            final(editor).selected_suggestion == 0 && final(editor).suggestion_scroll == 0
        } else {
            let sel = if old(editor).selected_suggestion < old(editor).suggestions@.len() {
                old(editor).selected_suggestion
            } else {
                (old(editor).suggestions@.len() - 1) as usize
            };
            final(editor).selected_suggestion == sel && final(editor).suggestion_scroll
                == keep_visible(sel, old(editor).suggestion_scroll)
        },
{
    if editor.suggestions.len() == 0 {
        editor.selected_suggestion = 0;
        editor.suggestion_scroll = 0;
        return;
    }
    if editor.selected_suggestion > editor.suggestions.len() - 1 {
        editor.selected_suggestion = editor.suggestions.len() - 1;
    }
    keep_selected_visible(editor);
}

/// Moves the cursor to a character boundary and recomputes the parse state and the
/// suggestions.
pub fn refresh(editor: &mut FilterEditorState, index: &FilterIndex)
    ensures
        refreshed(*old(editor), *final(editor), *index),
{
    let v = text::chars_of(editor.text.as_str());
    let n = text::str_len(editor.text.as_str());
    let offs = text::boundary_offsets(&v);
    let k = text::cursor_char_index(&offs, &v, editor.cursor);
    editor.cursor = offs[k];
    editor.parse_state = filter_parse_state(editor.text.as_str());
    editor.suggestions = build_filter_suggestions(editor.text.as_str(), editor.cursor, index);
    clamp_suggestion_selection(editor);
}

/// The editor `b` is `a` reset to the text `t`: cursor at its end, no error.
pub open spec fn reset(a: FilterEditorState, b: FilterEditorState, t: Seq<char>, index: FilterIndex) -> bool {
    &&& refreshed_from(
        t,
        text::byte_len(t) as int,
        a.selected_suggestion,
        a.suggestion_scroll,
        b,
        index,
    )
    &&& b.cursor == text::byte_len(t)
    &&& b.horizontal_offset == 0
    &&& b.error is None
}

impl FilterEditorState {
    /// Replaces the text, puts the cursor at its end and clears the error.
    pub fn reset_to(&mut self, text: &str, index: &FilterIndex)
        ensures
            reset(*old(self), *final(self), text@, *index),
    {
        self.text = text.to_owned();
        self.cursor = text::str_len(text);
        self.horizontal_offset = 0;
        self.error = None;
        proof {
            text::lemma_byte_len_offset(text@);
            text::lemma_offset_chars_within(text@, text@.len() as int);
        }
        refresh(self, index);
    }
}

/// The character index of a byte cursor.
pub open spec fn char_index(s: Seq<char>, cursor: int) -> int {
    text::chars_within(s, cursor) as int
}

/// The editor `b` is `a` after `insert_char`.
pub open spec fn inserted(a: FilterEditorState, b: FilterEditorState, index: FilterIndex, c: char) -> bool {
    &&& ({
        let k = char_index(a.text@, a.cursor as int);
        refreshed_from(
            a.text@.insert(k, c),
            a.cursor + text::utf8_len(c),
            a.selected_suggestion,
            a.suggestion_scroll,
            b,
            index,
        )
    })
    &&& b.error is None
    &&& b.horizontal_offset == a.horizontal_offset
}

/// The editor `b` is `a` after `backspace`.
pub open spec fn backspaced(a: FilterEditorState, b: FilterEditorState, index: FilterIndex) -> bool {
    &&& a.cursor == 0 ==> b == a
    &&& a.cursor != 0 ==> ({
        let k = char_index(a.text@, a.cursor as int);
        &&& refreshed_from(
            a.text@.remove(k - 1),
            text::byte_offset(a.text@, k - 1) as int,
            a.selected_suggestion,
            a.suggestion_scroll,
            b,
            index,
        )
        &&& b.error is None
        &&& b.horizontal_offset == a.horizontal_offset
    })
}

/// The editor `b` is `a` after `delete`.
pub open spec fn deleted(a: FilterEditorState, b: FilterEditorState, index: FilterIndex) -> bool {
    &&& a.cursor >= text::byte_len(a.text@) ==> b == a
    &&& a.cursor < text::byte_len(a.text@) ==> ({
        let k = char_index(a.text@, a.cursor as int);
        &&& refreshed_from(
            a.text@.remove(k),
            a.cursor as int,
            a.selected_suggestion,
            a.suggestion_scroll,
            b,
            index,
        )
        &&& b.error is None
        &&& b.horizontal_offset == a.horizontal_offset
    })
}

/// The editor `b` is `a` after `move_left`.
pub open spec fn moved_left(a: FilterEditorState, b: FilterEditorState) -> bool {
    &&& b.cursor == (if a.cursor == 0 {
        0
    } else {
        text::byte_offset(
            a.text@,
            char_index(a.text@, a.cursor as int) - 1,
        )
    })
    &&& b.text == a.text
    &&& b.suggestions == a.suggestions
    &&& b.selected_suggestion == a.selected_suggestion
    &&& b.suggestion_scroll == a.suggestion_scroll
    &&& b.parse_state == a.parse_state
    &&& b.error == a.error
    &&& b.horizontal_offset == a.horizontal_offset
}

/// The editor `b` is `a` after `move_right`.
pub open spec fn moved_right(a: FilterEditorState, b: FilterEditorState) -> bool {
    &&& b.cursor == (if a.cursor >= text::byte_len(a.text@) {
        a.cursor as int
    } else {
        text::byte_offset(
            a.text@,
            char_index(a.text@, a.cursor as int) + 1,
        ) as int
    })
    &&& b.text == a.text
    &&& b.suggestions == a.suggestions
    &&& b.selected_suggestion == a.selected_suggestion
    &&& b.suggestion_scroll == a.suggestion_scroll
    &&& b.parse_state == a.parse_state
    &&& b.error == a.error
    &&& b.horizontal_offset == a.horizontal_offset
}

/// The editor `b` is `a` after `move_home`.
pub open spec fn moved_home(a: FilterEditorState, b: FilterEditorState) -> bool {
    &&& b == (FilterEditorState { cursor: 0, ..a })
}

/// The editor `b` is `a` after `move_end`.
pub open spec fn moved_end(a: FilterEditorState, b: FilterEditorState) -> bool {
    &&& b == (FilterEditorState {
        cursor: text::byte_len(a.text@) as usize,
        ..a
    })
}

/// The editor `b` is `a` after `clear`.
pub open spec fn cleared(a: FilterEditorState, b: FilterEditorState, index: FilterIndex) -> bool {
    &&& refreshed_from(
        Seq::empty(),
        0,
        a.selected_suggestion,
        a.suggestion_scroll,
        b,
        index
    )
    &&& b.error is None
    &&& b.horizontal_offset == a.horizontal_offset
}

/// The editor `b` is `a` after `delete_current_token`.
pub open spec fn token_deleted(a: FilterEditorState, b: FilterEditorState, index: FilterIndex) -> bool {
    let s = a.text@;
    let k = char_index(s, a.cursor as int);
    let ts = token_start(s, k) as int;
    let te = token_end(s, k) as int;
    &&& ts == te ==> b == a
    &&& ts != te ==> {
        &&& refreshed_from(
            cut(s, ts, te),
            text::byte_offset(s, ts) as int,
            a.selected_suggestion,
            a.suggestion_scroll,
            b,
            index,
        )
        &&& b.error is None
        &&& b.horizontal_offset == a.horizontal_offset
    }
}

/// The editor `b` is `a` after `select_next_suggestion`.
pub open spec fn selected_next(a: FilterEditorState, b: FilterEditorState) -> bool {
    &&& a.suggestions@.len() == 0 ==> b == a
    &&& a.suggestions@.len() > 0 ==> ({
        let n = a.suggestions@.len();
        let sel = if a.selected_suggestion + 1 < n {
            (a.selected_suggestion + 1) as usize
        } else {
            (n - 1) as usize
        };
        b == FilterEditorState {
            selected_suggestion: sel,
            suggestion_scroll: keep_visible(sel, a.suggestion_scroll),
            ..a
        }
    })
}

/// The editor `b` is `a` after `select_previous_suggestion`.
pub open spec fn selected_previous(a: FilterEditorState, b: FilterEditorState) -> bool {
    &&& a.suggestions@.len() == 0 ==> b == a
    &&& a.suggestions@.len() > 0 ==> ({
        let sel = if a.selected_suggestion > 0 {
            (a.selected_suggestion - 1) as usize
        } else {
            0usize
        };
        b == FilterEditorState {
            selected_suggestion: sel,
            suggestion_scroll: keep_visible(sel, a.suggestion_scroll),
            ..a
        }
    })
}

/// The editor `b` is `a` after `refresh`.
pub open spec fn refreshed(a: FilterEditorState, b: FilterEditorState, index: FilterIndex) -> bool {
    &&& refreshed_from(
        a.text@,
        a.cursor as int,
        a.selected_suggestion,
        a.suggestion_scroll,
        b,
        index
    )
    &&& b.horizontal_offset == a.horizontal_offset
    &&& b.error == a.error
}

/// Inserts a character at the cursor, moves the cursor past it and refreshes.
pub fn insert_char(editor: &mut FilterEditorState, index: &FilterIndex, c: char)
    requires
        text::at_boundary(old(editor).text@, old(editor).cursor as int),
    ensures
        inserted(*old(editor), *final(editor), *index, c),
{
    let v = text::chars_of(editor.text.as_str());
    let offs = text::boundary_offsets_str(editor.text.as_str(), &v);
    let k = text::cursor_char_index(&offs, &v, editor.cursor);
    let mut one = String::new();
    text::push_char(&mut one, c);
    let new_text = text::splice(&v, k, k, one.as_str());
    let n = text::str_len(new_text.as_str());
    proof {
        assert(new_text@ =~= v@.take(k as int) + seq![c] + v@.skip(k as int));
        assert(new_text@ =~= v@.insert(k as int, c));
        text::lemma_byte_len_concat(v@.take(k as int) + seq![c], v@.skip(k as int));
        text::lemma_byte_len_concat(v@.take(k as int), seq![c]);
        text::lemma_byte_len_single(c);
    }
    editor.text = new_text;
    editor.cursor = editor.cursor + text::char_len_utf8(c);
    editor.error = None;
    refresh(editor, index);
}

/// Removes the character before the cursor and refreshes; nothing at the start.
pub fn backspace(editor: &mut FilterEditorState, index: &FilterIndex)
    requires
        old(editor).cursor == 0 || text::at_boundary(old(editor).text@, old(editor).cursor as int),
    ensures
        backspaced(*old(editor), *final(editor), *index),
{
    if editor.cursor == 0 {
        return;
    }
    let v = text::chars_of(editor.text.as_str());
    let offs = text::boundary_offsets_str(editor.text.as_str(), &v);
    let k = text::cursor_char_index(&offs, &v, editor.cursor);
    proof {
        if k == 0 {
            assert(v@.take(0) =~= Seq::<char>::empty());
            assert(text::byte_len(Seq::<char>::empty()) == 0);
        }
    }
    let new_text = text::splice(&v, k - 1, k, "");
    proof {
        reveal_strlit("");
        assert(new_text@ =~= v@.remove(k - 1));
    }
    editor.text = new_text;
    editor.cursor = offs[k - 1];
    editor.error = None;
    refresh(editor, index);
}

/// Removes the character at the cursor and refreshes; nothing at the end.
pub fn delete(editor: &mut FilterEditorState, index: &FilterIndex)
    requires
        old(editor).cursor >= text::byte_len(old(editor).text@) || text::at_boundary(
            old(editor).text@,
            old(editor).cursor as int,
        ),
    ensures
        deleted(*old(editor), *final(editor), *index),
{
    let n = text::str_len(editor.text.as_str());
    if editor.cursor >= n {
        return;
    }
    let v = text::chars_of(editor.text.as_str());
    let offs = text::boundary_offsets_str(editor.text.as_str(), &v);
    let k = text::cursor_char_index(&offs, &v, editor.cursor);
    proof {
        if k == v@.len() {
            text::lemma_byte_len_offset(v@);
        }
    }
    let new_text = text::splice(&v, k, k + 1, "");
    proof {
        reveal_strlit("");
        assert(new_text@ =~= v@.remove(k as int));
    }
    editor.text = new_text;
    editor.error = None;
    refresh(editor, index);
}

/// Moves the cursor one character to the left.
pub fn move_left(editor: &mut FilterEditorState)
    requires
        old(editor).cursor == 0 || text::at_boundary(old(editor).text@, old(editor).cursor as int),
    ensures
        moved_left(*old(editor), *final(editor)),
{
    if editor.cursor == 0 {
        return;
    }
    let v = text::chars_of(editor.text.as_str());
    let offs = text::boundary_offsets_str(editor.text.as_str(), &v);
    let k = text::cursor_char_index(&offs, &v, editor.cursor);
    proof {
        if k == 0 {
            assert(v@.take(0) =~= Seq::<char>::empty());
            assert(text::byte_len(Seq::<char>::empty()) == 0);
        }
    }
    editor.cursor = offs[k - 1];
}

/// Moves the cursor one character to the right.
pub fn move_right(editor: &mut FilterEditorState)
    requires
        old(editor).cursor >= text::byte_len(old(editor).text@) || text::at_boundary(
            old(editor).text@,
            old(editor).cursor as int,
        ),
    ensures
        moved_right(*old(editor), *final(editor)),
{
    let n = text::str_len(editor.text.as_str());
    if editor.cursor >= n {
        return;
    }
    let v = text::chars_of(editor.text.as_str());
    let offs = text::boundary_offsets_str(editor.text.as_str(), &v);
    let k = text::cursor_char_index(&offs, &v, editor.cursor);
    proof {
        if k == v@.len() {
            text::lemma_byte_len_offset(v@);
        }
    }
    editor.cursor = offs[k + 1];
}

/// Moves the cursor to the start.
pub fn move_home(editor: &mut FilterEditorState)
    ensures
        moved_home(*old(editor), *final(editor)),
{
    editor.cursor = 0;
}

/// Moves the cursor to the end.
pub fn move_end(editor: &mut FilterEditorState)
    ensures
        moved_end(*old(editor), *final(editor)),
{
    editor.cursor = text::str_len(editor.text.as_str());
}

/// Empties the text and refreshes.
pub fn clear(editor: &mut FilterEditorState, index: &FilterIndex)
    ensures
        cleared(*old(editor), *final(editor), *index),
{
    editor.text = String::new();
    editor.cursor = 0;
    editor.error = None;
    refresh(editor, index);
}

} // verus!

verus! {

/// The text with the characters `a..b` removed.
pub open spec fn cut(s: Seq<char>, a: int, b: int) -> Seq<char> {
    s.take(a) + s.skip(b)
}

/// Removes the token around the cursor and refreshes; nothing when the cursor is not
/// on a token.
pub fn delete_current_token(editor: &mut FilterEditorState, index: &FilterIndex)
    ensures
        token_deleted(*old(editor), *final(editor), *index),
{
    let v = text::chars_of(editor.text.as_str());
    let offs = text::boundary_offsets_str(editor.text.as_str(), &v);
    let k = text::cursor_char_index(&offs, &v, editor.cursor);
    let (a, b) = token_chars(&v, k);
    if a == b {
        return;
    }
    let new_text = text::splice(&v, a, b, "");
    proof {
        reveal_strlit("");
        assert(new_text@ =~= cut(v@, a as int, b as int));
    }
    editor.text = new_text;
    editor.cursor = offs[a];
    editor.error = None;
    refresh(editor, index);
}

/// Selects the next suggestion, stopping at the last one.
pub fn select_next_suggestion(editor: &mut FilterEditorState)
    ensures
        selected_next(*old(editor), *final(editor)),
{
    let n = editor.suggestions.len();
    if n == 0 {
        return;
    }
    if editor.selected_suggestion < n - 1 {
        editor.selected_suggestion = editor.selected_suggestion + 1;
    } else {
        editor.selected_suggestion = n - 1;
    }
    keep_selected_visible(editor);
}

/// Selects the previous suggestion, stopping at the first one.
pub fn select_previous_suggestion(editor: &mut FilterEditorState)
    ensures
        selected_previous(*old(editor), *final(editor)),
{
    if editor.suggestions.len() == 0 {
        return;
    }
    if editor.selected_suggestion > 0 {
        editor.selected_suggestion = editor.selected_suggestion - 1;
    }
    keep_selected_visible(editor);
}

/// The editor `b` is `a` after `apply_selected_suggestion` returned `applied`.
pub open spec fn applied_suggestion(a: FilterEditorState, b: FilterEditorState, index: FilterIndex, applied: bool) -> bool {
    &&& applied == (a.selected_suggestion < a.suggestions@.len())
    &&& !applied ==> b == a
    &&& applied ==> ({
        let s = a.text@;
        let k = char_index(s, a.cursor as int);
        let ts = token_start(s, k) as int;
        let te = token_end(s, k) as int;
        let r = a.suggestions@[a.selected_suggestion as int].replacement@;
        &&& refreshed_from(
            s.take(ts) + r + s.skip(te),
            (text::byte_offset(s, ts) + text::byte_len(r)) as int,
            a.selected_suggestion,
            a.suggestion_scroll,
            b,
            index,
        )
        &&& b.error is None
        &&& b.horizontal_offset == a.horizontal_offset
    })
}

/// Replaces the token around the cursor with the selected suggestion, puts the
/// cursor after it and refreshes. Returns `false`, changing nothing, when no
/// suggestion is selected.
pub fn apply_selected_suggestion(editor: &mut FilterEditorState, index: &FilterIndex) -> (applied: bool)
    ensures
        applied_suggestion(*old(editor), *final(editor), *index, applied),
{
    if editor.selected_suggestion >= editor.suggestions.len() {
        return false;
    }
    let v = text::chars_of(editor.text.as_str());
    let offs = text::boundary_offsets_str(editor.text.as_str(), &v);
    let k = text::cursor_char_index(&offs, &v, editor.cursor);
    let (a, b) = token_chars(&v, k);
    let ghost r = editor.suggestions@[editor.selected_suggestion as int].replacement@;
    let new_text = text::splice(&v, a, b, editor.suggestions[editor.selected_suggestion].replacement.as_str());
    let total = text::str_len(new_text.as_str());
    let rlen = text::str_len(editor.suggestions[editor.selected_suggestion].replacement.as_str());
    proof {
        text::lemma_byte_len_concat(v@.take(a as int) + r, v@.skip(b as int));
        text::lemma_byte_len_concat(v@.take(a as int), r);
    }
    editor.text = new_text;
    editor.cursor = offs[a] + rlen;
    editor.error = None;
    refresh(editor, index);
    true
}

} // verus!

verus! {

/// Where the visible window of `n` characters starts so that the cursor character
/// `cc` is in its last column of `w`.
pub open spec fn window_start(cc: int, w: int) -> int {
    if cc - (w - 1) > 0 {
        cc - (w - 1)
    } else {
        0
    }
}

/// Where the visible window ends: `w` characters after its start, or the text's end.
pub open spec fn window_end(n: int, start: int, w: int) -> int {
    if start + w < n {
        start + w
    } else {
        n
    }
}

/// The width actually used: at least one column.
pub open spec fn used_width(width: int) -> int {
    if width < 1 {
        1
    } else {
        width
    }
}

/// What `visible_text` shows of `s` for a byte cursor in `width` columns, and the
/// cursor's column: the whole text if it fits; else a window that ends at the
/// cursor, with `<` over its first character when text is cut off on the left and
/// `>` over its last when text is cut off on the right.
pub open spec fn visible_window(s: Seq<char>, cursor: int, width: int) -> (Seq<char>, int) {
    let w = used_width(width);
    let cc = text::chars_within(s, cursor) as int;
    let n = s.len() as int;
    if n <= w {
        (s, if cc < w - 1 { cc } else { w - 1 })
    } else {
        let start = window_start(cc, w);
        let end = window_end(n, start, w);
        let vis = s.subrange(start, end);
        let left = if start > 0 && vis.len() > 0 {
            seq!['<'] + vis.drop_first()
        } else {
            vis
        };
        let both = if end < n && left.len() > 0 {
            left.drop_last().push('>')
        } else {
            left
        };
        let col = if cc - start < w - 1 { cc - start } else { w - 1 };
        (both, col)
    }
}

/// Whether `visible_text` can mark a left cut-off: the first visible character is a
/// single byte, which the marker replaces.
pub open spec fn left_marker_fits(s: Seq<char>, cursor: int, width: int) -> bool {
    let w = used_width(width);
    let cc = text::chars_within(s, cursor) as int;
    let n = s.len() as int;
    let start = window_start(cc, w);
    (n > w && start > 0 && start < window_end(n, start, w)) ==> text::utf8_len(s[start]) == 1
}

/// The part of the filter text that fits in `width` columns around the cursor.
/// Whether the filter text can be shown for this cursor and width: the character
/// that the left marker replaces, when there is one, takes a single byte.
pub fn visible_text_fits(text: &str, cursor: usize, width: usize) -> (r: bool)
    ensures
        r == left_marker_fits(text@, cursor as int, width as int),
{
    let w: usize = if width < 1 { 1 } else { width };
    let v = text::chars_of(text);
    let offs = text::boundary_offsets_str(text, &v);
    let cc = text::cursor_char_index(&offs, &v, cursor);
    let n = v.len();
    let start: usize = if cc > w - 1 { cc - (w - 1) } else { 0 };
    let end: usize = if n > w && start < n - w { start + w } else { n };
    if n > w && start > 0 && start < end {
        text::char_len_utf8(v[start]) == 1
    } else {
        true
    }
}

/// The part of the filter text that fits `width` columns around the cursor, and the
/// cursor's column in it.
pub fn visible_text(text: &str, cursor: usize, width: usize) -> (r: FilterView)
    requires
        left_marker_fits(text@, cursor as int, width as int),
    ensures
        r.text@ == visible_window(text@, cursor as int, width as int).0,
        r.cursor_column == visible_window(text@, cursor as int, width as int).1 as u16,
{
    let w: usize = if width < 1 {
        1
    } else {
        width
    };
    let v = text::chars_of(text);
    let offs = text::boundary_offsets_str(text, &v);
    let cc = text::cursor_char_index(&offs, &v, cursor);
    let n = v.len();
    if n <= w {
        let col: usize = if cc < w - 1 {
            cc
        } else {
            w - 1
        };
        return FilterView { text: text::to_owned(text), cursor_column: col as u16 };
    }
    let start: usize = if cc > w - 1 {
        cc - (w - 1)
    } else {
        0
    };
    let end: usize = if start < n - w {
        start + w
    } else {
        n
    };
    let mut out: Vec<char> = Vec::new();
    let mut i = start;
    while i < end
        invariant
            start <= i <= end <= n == v@.len(),
            out@ =~= v@.subrange(start as int, i as int),
        decreases end - i,
    {
        out.push(v[i]);
        i = i + 1;
    }
    let ghost vis = out@;
    if start > 0 && out.len() > 0 {
        out.set(0, '<');
        proof {
            assert(out@ =~= seq!['<'] + vis.drop_first());
        }
    }
    let ghost left = out@;
    if end < n && out.len() > 0 {
        let last = out.len() - 1;
        out.set(last, '>');
        proof {
            assert(out@ =~= left.drop_last().push('>'));
        }
    }
    let col: usize = if cc - start < w - 1 {
        cc - start
    } else {
        w - 1
    };
    FilterView { text: text::string_of_all(&out), cursor_column: col as u16 }
}


/// After a refresh the cursor is on a character boundary.
pub proof fn lemma_refreshed_at_boundary(a: FilterEditorState, b: FilterEditorState, index: FilterIndex)
    requires
        refreshed(a, b, index),
    ensures
        text::at_boundary(b.text@, b.cursor as int),
{
    let s = b.text@;
    let k = text::chars_within(s, a.cursor as int);
    text::lemma_chars_within(s, a.cursor as int);
    text::lemma_offset_chars_within(s, k as int);
    text::lemma_byte_offset_mono(s, k as int, s.len() as int);
    text::lemma_byte_len_offset(s);
}

/// A refresh keeps the text, moves the cursor to the largest character boundary at
/// or below it (and within the text), recomputes the parse state and suggestions, and
/// keeps the selection within the suggestions and within the popup's visible rows:
/// nothing selected when there is no suggestion.
pub proof fn lemma_refresh_settles_cursor_and_selection(a: FilterEditorState, b: FilterEditorState, index: FilterIndex)
    requires
        refreshed(a, b, index),
    ensures
        b.text@ == a.text@,
        b.parse_state@ == parse_state_of(a.text@),
        suggestions_view(b.suggestions@) == suggestions_at(a.text@, b.cursor as int, index),
        b.cursor <= a.cursor,
        b.cursor <= text::byte_len(a.text@),
        text::at_boundary(b.text@, b.cursor as int),
        forall|j: int|
            0 <= j <= a.text@.len() && text::byte_offset(a.text@, j) <= a.cursor ==> #[trigger] text::byte_offset(
                a.text@,
                j,
            ) <= b.cursor,
        b.suggestions@.len() == 0 ==> b.selected_suggestion == 0 && b.suggestion_scroll == 0,
        b.suggestions@.len() > 0 ==> b.suggestion_scroll <= b.selected_suggestion && b.selected_suggestion
            < b.suggestions@.len() && b.selected_suggestion < b.suggestion_scroll + MAX_VISIBLE_SUGGESTIONS,
{
    let s = a.text@;
    let c = text::chars_within(s, a.cursor as int);
    text::lemma_chars_within(s, a.cursor as int);
    text::lemma_byte_offset_mono(s, c as int, s.len() as int);
    text::lemma_byte_len_offset(s);
    lemma_refreshed_at_boundary(a, b, index);
    assert forall|j: int|
        0 <= j <= s.len() && text::byte_offset(s, j) <= a.cursor implies #[trigger] text::byte_offset(s, j) <= b.cursor by {
        if j > c {
            text::lemma_byte_offset_mono(s, c + 1 as int, j);
        } else {
            text::lemma_byte_offset_mono(s, j, c as int);
        }
    }
    assert(suggestions_view(b.suggestions@).len() == b.suggestions@.len());
}

/// Backspace undoes a character typed at a character boundary: the text and the
/// cursor are back, no error is shown and the parse state is that of the text.
pub proof fn lemma_backspace_undoes_insert(
    e0: FilterEditorState,
    e1: FilterEditorState,
    e2: FilterEditorState,
    index: FilterIndex,
    c: char,
)
    requires
        text::at_boundary(e0.text@, e0.cursor as int),
        inserted(e0, e1, index, c),
        backspaced(e1, e2, index),
    ensures
        e2.text@ == e0.text@,
        e2.cursor == e0.cursor,
        e2.error is None,
        e2.parse_state@ == parse_state_of(e0.text@),
{
    let s = e0.text@;
    let k = text::chars_within(s, e0.cursor as int);
    text::lemma_chars_within(s, e0.cursor as int);
    let s1 = s.insert(k as int, c);
    assert(s1.take(k as int) =~= s.take(k as int));
    assert(s1[k as int] == c);
    text::lemma_byte_offset_step(s1, k as int);
    text::lemma_offset_chars_within(s1, k + 1 as int);
    assert(e1.text@ == s1);
    assert(e1.cursor == text::byte_offset(s1, k + 1 as int));
    assert(e1.cursor != 0);
    assert(s1.remove(k as int) =~= s);
    text::lemma_offset_chars_within(s, k as int);
}

} // verus!
