use tlscope::tui::state::{Screen, TuiState};
use tlscope::tui::view::{footer_hint, max_scroll_offset};

#[test]
fn scrolls_only_past_what_fits() {
    assert_eq!(max_scroll_offset("one\ntwo\n", 10, 10), 0);
    assert_eq!(max_scroll_offset("a\nb\nc\nd\ne\n", 10, 4), 3);
    // 25 characters in 8 inner columns take 4 lines; 2 fit.
    assert_eq!(max_scroll_offset("aaaaaaaaaaaaaaaaaaaaaaaaa", 10, 4), 2);
    assert_eq!(max_scroll_offset("", 0, 0), 0);
}

#[test]
fn hints_the_keys_of_the_screen() {
    let mut state = TuiState::default();
    assert!(footer_hint(&state).starts_with("Up/Down/j/k select"));
    state.screen = Screen::Help;
    assert_eq!(footer_hint(&state), "Esc back | l logs | ? help | q quit");
    state.entering_filter = true;
    assert!(footer_hint(&state).starts_with("type filter"));
    state.confirm_quit = true;
    assert_eq!(footer_hint(&state), "1 stop child | 2 leave child | 3/Esc cancel");
}
