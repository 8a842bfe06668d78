use tlscope::capture::model::{CapturedBody, TrafficEntry};
use tlscope::capture::store::{TrafficFilter, TrafficStore};
use tlscope::certificates::authority::has_rcgen_default_validity;
use tlscope::diagnostics::logs::{TlscopeLogLevel, TlscopeLogStore};
use tlscope::interactive::{
    handle_chooser_key, launcher_hint, report_ca_fingerprint, report_ca_path, report_ca_status,
    sort_launch_options, start_chooser, ChooserCommand, Field, LaunchOption, LauncherScreen,
    LauncherState,
};
use tlscope::process::logs::{ChildLogStore, ChildOutputStream};
use tlscope::process::tracking::{parse_stat_parent_pid, ProcessTrackingConfig, QuietWatch};
use tlscope::tui::events::KeyCode;
use tlscope::tui::view::{entry_tone, list_window, log_scroll_top, log_title, EntryTone};

fn options(paths: &[&str]) -> Vec<LaunchOption> {
    paths
        .iter()
        .map(|path| LaunchOption { path: path.to_string(), kind: "file" })
        .collect()
}

fn entry(id: u64, host: &str) -> TrafficEntry {
    TrafficEntry {
        id,
        started_at_nanos: 0,
        duration_nanos: 0,
        process_id: None,
        scheme: "http".to_string(),
        host: host.to_string(),
        port: 80,
        method: "GET".to_string(),
        path: "/".to_string(),
        http_version: "HTTP/1.1".to_string(),
        request_headers: Vec::new(),
        request_body: CapturedBody::empty(),
        response_status: Some(200),
        response_headers: Vec::new(),
        response_body: CapturedBody::empty(),
        request_size: 0,
        response_size: 0,
        tls: None,
        error: None,
    }
}

#[test]
fn chooses_a_file_from_a_folder_listing() {
    let mut state = match start_chooser(options(&["tools/alpha", "tools/beta"]), "tools") {
        Ok(state) => state,
        Err(error) => panic!("{error}"),
    };
    assert_eq!(state.screen, LauncherScreen::LaunchSelect);
    assert_eq!(state.message, "Choose a launch file (files) from tools.");
    assert_eq!(handle_chooser_key(&mut state, KeyCode::Char('b')), ChooserCommand::Stay);
    assert_eq!(state.message, "1 matches for 'b'.");
    assert_eq!(
        handle_chooser_key(&mut state, KeyCode::Enter),
        ChooserCommand::Chosen("tools/beta".to_string())
    );
    assert_eq!(handle_chooser_key(&mut state, KeyCode::Tab), ChooserCommand::Stay);
    assert_eq!(state.message, "Choose with Enter, or cancel with Esc.");
    assert_eq!(handle_chooser_key(&mut state, KeyCode::Esc), ChooserCommand::Cancel);
}

#[test]
fn chooses_nothing_when_the_filter_matches_nothing() {
    let mut state = match start_chooser(options(&["tools/alpha"]), "tools") {
        Ok(state) => state,
        Err(error) => panic!("{error}"),
    };
    handle_chooser_key(&mut state, KeyCode::Char('z'));
    assert_eq!(state.message, "0 matches for 'z'.");
    assert_eq!(handle_chooser_key(&mut state, KeyCode::Enter), ChooserCommand::Stay);
}

#[test]
fn refuses_a_folder_without_launch_files() {
    assert_eq!(
        start_chooser(Vec::new(), "empty").err(),
        Some("no supported launch files (files) found in empty".to_string())
    );
}

#[test]
fn hints_the_keys_of_the_launcher() {
    let mut state = LauncherState::default();
    assert_eq!(
        launcher_hint(&state),
        "Up/Down select | Left/Right paired fields | Enter edit/toggle/action | Esc/q cancel"
    );
    state.editing = Some(Field::Target);
    assert_eq!(launcher_hint(&state), "Type value | Tab complete path | Enter save | Esc cancel edit");
    state.editing = Some(Field::Listen);
    assert_eq!(launcher_hint(&state), "Type value | Enter save | Esc cancel edit");
    state.confirm_remove_ca = true;
    assert_eq!(launcher_hint(&state), "Enter/y remove local CA files | Esc/n cancel");
}

#[test]
fn sorts_launch_files_by_name_in_any_case() {
    let sorted = sort_launch_options(&options(&["dir/b", "dir/A", "dir/c", "dir/a"]));
    let paths = sorted.iter().map(|option| option.path.as_str()).collect::<Vec<_>>();
    assert_eq!(paths, vec!["dir/A", "dir/a", "dir/b", "dir/c"]);
}

#[test]
fn reports_ca_status_path_and_fingerprint() {
    let mut state = LauncherState::default();
    report_ca_status(&mut state, "/ca/cert.pem", false, &None, &Ok(false));
    assert_eq!(state.ca_trust_status, "not created");
    assert_eq!(state.message, "No TLScope CA at /ca/cert.pem. Choose Create CA.");
    report_ca_status(&mut state, "/ca/cert.pem", true, &None, &Ok(true));
    assert_eq!(state.ca_trust_status, "trusted");
    assert_eq!(state.message, "CA is trusted. SHA-256 unknown");
    report_ca_path(&mut state, "/ca/cert.pem", false);
    assert_eq!(state.message, "CA planned certificate path: /ca/cert.pem");
    report_ca_fingerprint(&mut state, &Ok("AB:CD".to_string()));
    assert_eq!(state.message, "CA SHA-256 fingerprint: AB:CD");
}

#[test]
fn windows_lists_and_logs_around_the_selection() {
    assert_eq!(list_window(10, 9, 6), (9, 7, 3));
    assert_eq!(list_window(0, 4, 6), (0, 0, 0));
    assert_eq!(log_scroll_top(10, 7, 2), 3);
    assert_eq!(log_scroll_top(3, 7, 2), 0);
    assert_eq!(log_title("Child", 3, 10, 7), "Child logs (3 shown / 10 total, 7 dropped)");
    assert_eq!(log_title("Child", 3, 3, 0), "Child logs (3 lines)");
}

#[test]
fn colours_entries_by_status() {
    assert_eq!(entry_tone(false, Some(204)), EntryTone::Green);
    assert_eq!(entry_tone(false, Some(302)), EntryTone::Cyan);
    assert_eq!(entry_tone(false, Some(404)), EntryTone::Yellow);
    assert_eq!(entry_tone(false, Some(503)), EntryTone::Red);
    assert_eq!(entry_tone(true, Some(200)), EntryTone::Red);
    assert_eq!(entry_tone(false, None), EntryTone::Blue);
    assert_eq!(entry_tone(false, Some(101)), EntryTone::Plain);
}

#[test]
fn reads_the_parent_pid_from_proc_stat() {
    assert_eq!(parse_stat_parent_pid("1234 (my (odd) prog) S 42 1234 1234 0"), Some(42));
    assert_eq!(parse_stat_parent_pid("1234 (prog) S"), None);
    assert_eq!(parse_stat_parent_pid("no parenthesis here"), None);
}

#[test]
fn waits_for_a_settled_quiet_period() {
    let mut watch = QuietWatch { quiet_since_ms: None };
    assert_eq!(watch.poll(0, 100, 50), None);
    assert_eq!(watch.quiet_since_ms, Some(100));
    assert_eq!(watch.poll(0, 160, 50), Some(60));
    assert_eq!(watch.poll(2, 170, 50), None);
    assert_eq!(watch.quiet_since_ms, None);
}

#[test]
fn recognises_certificates_with_the_default_validity() {
    assert!(has_rcgen_default_validity(1975, 4096));
    assert!(!has_rcgen_default_validity(2024, 2034));
}

#[test]
fn blank_filter_keeps_every_entry() {
    let mut store = TrafficStore::new();
    store.push(entry(1, "a.example"));
    store.push(entry(2, "b.example"));
    let filter = match TrafficFilter::parse("   ") {
        Ok(filter) => filter,
        Err(error) => panic!("{error}"),
    };
    let kept = store.filtered(&filter);
    assert_eq!(kept.iter().map(|e| e.id).collect::<Vec<_>>(), vec![1, 2]);
}

#[test]
fn counts_every_line_pushed_to_the_log_stores() {
    let mut child = ChildLogStore::new(1);
    child.push(ChildOutputStream::Stdout, "one".to_string());
    child.push(ChildOutputStream::Stderr, "two".to_string());
    assert_eq!(child.total(), 2);
    let mut own = TlscopeLogStore::new(1);
    own.push(TlscopeLogLevel::Info, "app".to_string(), "ready".to_string());
    assert_eq!(own.total(), 1);
}

#[test]
fn tracks_the_names_of_a_path() {
    let mut config = ProcessTrackingConfig::default();
    assert!(config.is_empty());
    config.add_process_names_from_path("/opt/tools/probe");
    assert!(!config.is_empty());
    assert_eq!(config.label(), None);
}

#[test]
fn keeps_only_the_first_bytes_of_a_large_body() {
    let mut body = CapturedBody::empty();
    body.push_capture(b"hello ", 8);
    body.push_capture(b"world", 8);
    body.push_capture(b"!", 8);
    assert_eq!(body.bytes, b"hello wo".to_vec());
    assert!(body.truncated);
    assert_eq!(body.original_size, 12);
}

#[test]
fn keeps_a_small_body_whole() {
    let mut body = CapturedBody::empty();
    body.push_capture(b"ab", 8);
    body.push_capture(b"cd", 8);
    assert_eq!(body.bytes, b"abcd".to_vec());
    assert!(!body.truncated);
}

#[test]
fn combines_filter_tokens_with_and() {
    let mut get_a = entry(1, "a.example");
    get_a.method = "GET".to_string();
    let mut post_a = entry(2, "a.example");
    post_a.method = "POST".to_string();
    let mut get_b = entry(3, "b.example");
    get_b.method = "GET".to_string();
    let both = match TrafficFilter::parse("method:GET host:a.example") {
        Ok(filter) => filter,
        Err(error) => panic!("{error}"),
    };
    assert!(both.matches(&get_a));
    assert!(!both.matches(&post_a));
    assert!(!both.matches(&get_b));
    assert!(TrafficFilter::parse("method:GET bogus:1").is_err());
}
