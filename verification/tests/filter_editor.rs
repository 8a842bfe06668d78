use tlscope::capture::store::FilterIndex;
use tlscope::tui::filter::{apply_selected_suggestion, refresh, FilterEditorState};

#[test]
fn applies_selected_suggestion_to_current_token() {
    let mut editor = FilterEditorState::default();
    editor.text = "method:P".to_string();
    editor.cursor = editor.text.len();
    refresh(&mut editor, &FilterIndex::default());
    editor.selected_suggestion = editor
        .suggestions
        .iter()
        .position(|suggestion| suggestion.replacement == "method:POST")
        .unwrap();
    assert!(apply_selected_suggestion(
        &mut editor,
        &FilterIndex::default()
    ));
    assert_eq!(editor.text, "method:POST");
}
