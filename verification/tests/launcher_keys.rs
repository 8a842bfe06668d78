use tlscope::config::{listen_check, parse_env_pairs};
use tlscope::interactive::{
    apply_completion, apply_start_check, completion_decision, completion_mode, field_index, field_value, format_path_for_edit,
    handle_launcher_key, plan_launch, resolve_program_target, CompletionCandidate, CompletionDecision, CompletionMode,
    CompletionOutcome, Field, LaunchOption, LauncherCommand, LauncherScreen, LauncherState, StartCheck,
};
use tlscope::tui::events::KeyCode;

fn options(names: &[&str]) -> Vec<LaunchOption> {
    names
        .iter()
        .map(|name| LaunchOption { path: name.to_string(), kind: "file" })
        .collect()
}

#[test]
fn edits_a_field_and_saves_it_trimmed() {
    let mut state = LauncherState::default();
    assert_eq!(handle_launcher_key(&mut state, KeyCode::Enter), LauncherCommand::Stay);
    assert_eq!(state.editing, Some(Field::Target));
    assert_eq!(state.message, "Editing Program path.");
    for c in " app ".chars() {
        handle_launcher_key(&mut state, KeyCode::Char(c));
    }
    handle_launcher_key(&mut state, KeyCode::Backspace);
    assert_eq!(state.edit_buffer, " app");
    assert_eq!(handle_launcher_key(&mut state, KeyCode::Tab), LauncherCommand::Complete(Field::Target));
    handle_launcher_key(&mut state, KeyCode::Enter);
    assert_eq!(state.target, "app");
    assert_eq!(state.editing, None);
    assert_eq!(state.message, "Value saved.");
}

#[test]
fn cancels_from_the_form() {
    let mut state = LauncherState::default();
    assert_eq!(handle_launcher_key(&mut state, KeyCode::Char('q')), LauncherCommand::Cancel);
    assert_eq!(handle_launcher_key(&mut state, KeyCode::PageUp), LauncherCommand::Stay);
    assert_eq!(state.message, "This key is not available here.");
}

#[test]
fn filters_and_launches_from_the_file_list() {
    let mut state = LauncherState {
        screen: LauncherScreen::LaunchSelect,
        launch_options: options(&["alpha.sh", "beta.sh", "alphabet.sh"]),
        ..LauncherState::default()
    };
    handle_launcher_key(&mut state, KeyCode::Char('a'));
    handle_launcher_key(&mut state, KeyCode::Char('l'));
    assert_eq!(state.launch_filter, "al");
    assert_eq!(state.message, "2 matches for 'al'.");
    handle_launcher_key(&mut state, KeyCode::Down);
    assert_eq!(state.launch_selected, 1);
    handle_launcher_key(&mut state, KeyCode::Down);
    assert_eq!(state.message, "Already at the last file in this column.");
    assert_eq!(handle_launcher_key(&mut state, KeyCode::Enter), LauncherCommand::Launch);
    assert_eq!(state.target, "alphabet.sh");
    handle_launcher_key(&mut state, KeyCode::Delete);
    assert_eq!(state.message, "3 launchable files.");
    handle_launcher_key(&mut state, KeyCode::End);
    assert_eq!(state.launch_selected, 2);
    handle_launcher_key(&mut state, KeyCode::Right);
    assert_eq!(state.message, "No file column to the right.");
    handle_launcher_key(&mut state, KeyCode::Esc);
    assert_eq!(state.screen, LauncherScreen::Form);
}

#[test]
fn confirms_ca_removal_before_removing() {
    let mut state = LauncherState { confirm_remove_ca: true, ..LauncherState::default() };
    handle_launcher_key(&mut state, KeyCode::Char('x'));
    assert_eq!(state.message, "Confirm CA removal with Enter/y, or cancel with Esc/n.");
    assert_eq!(handle_launcher_key(&mut state, KeyCode::Char('y')), LauncherCommand::RemoveCa);
    assert!(!state.confirm_remove_ca);
}

#[test]
fn flips_switches_with_enter() {
    let mut state = LauncherState::default();
    state.selected = field_index(Field::HttpsInspection);
    assert_eq!(handle_launcher_key(&mut state, KeyCode::Enter), LauncherCommand::Stay);
    assert!(state.https_inspection);
    assert_eq!(state.message, "HTTPS inspection enabled. Make sure the TLScope CA is trusted.");
    state.selected = field_index(Field::Start);
    assert_eq!(handle_launcher_key(&mut state, KeyCode::Enter), LauncherCommand::Start);
}

#[test]
fn shows_field_values_and_placeholders() {
    let mut state = LauncherState::default();
    assert_eq!(field_value(&state, Field::Target, false), "<file/folder, Tab completes>");
    assert_eq!(field_value(&state, Field::ExtraCaEnv, false), "ON");
    assert_eq!(field_value(&state, Field::CaStatus, false), "not created");
    assert_eq!(field_value(&state, Field::CaStatus, true), "created | trust: not checked");
    state.editing = Some(Field::Listen);
    state.edit_buffer = "127.0.0.1:9".to_string();
    assert_eq!(field_value(&state, Field::Listen, false), "127.0.0.1:9_");
}

fn candidate(name: &str, is_dir: bool) -> CompletionCandidate {
    CompletionCandidate { name: name.to_string(), is_dir }
}

#[test]
fn decides_path_completions() {
    match completion_decision(".", "Demo", vec![candidate("notes.txt", false), candidate("DemoApp.exe", false)]) {
        CompletionDecision::Single { name, is_dir, message } => {
            assert_eq!(name, "DemoApp.exe");
            assert!(!is_dir);
            assert_eq!(message, "Completed DemoApp.exe.");
        }
        other => panic!("unexpected decision {other:?}"),
    }
    match completion_decision(".", "d", vec![candidate("demoB", false), candidate("DemoA", true)]) {
        CompletionDecision::Common { prefix, message } => {
            assert_eq!(prefix, "Demo");
            assert_eq!(message, "Completed common prefix; 2 matches.");
        }
        other => panic!("unexpected decision {other:?}"),
    }
    match completion_decision("dir", "x", vec![candidate("a", false)]) {
        CompletionDecision::NoMatch(message) => assert_eq!(message, "No path matches 'x' in dir."),
        other => panic!("unexpected decision {other:?}"),
    }
    match completion_decision(".", "", vec![candidate("b", false), candidate("a", false)]) {
        CompletionDecision::Choices(message) => assert_eq!(message, "2 matches: a, b"),
        other => panic!("unexpected decision {other:?}"),
    }
    assert_eq!(format_path_for_edit("/tmp/My Dir", true, false, '/'), "\"/tmp/My Dir/\"");
    assert_eq!(format_path_for_edit("/tmp/app", false, false, '/'), "/tmp/app");
    assert_eq!(completion_mode(Field::CaDir), Some(CompletionMode::Directory));
    assert_eq!(completion_mode(Field::Listen), None);
}

#[test]
fn applies_completion_outcomes() {
    let mut state = LauncherState::default();
    apply_completion(
        &mut state,
        Some(Ok(CompletionOutcome::Completed("/tmp/app".to_string(), "Completed app.".to_string()))),
    );
    assert_eq!(state.edit_buffer, "/tmp/app");
    assert_eq!(state.message, "Completed app.");
    apply_completion(&mut state, None);
    assert_eq!(state.message, "Path completion is not available for this field.");
}

#[test]
fn plans_a_launch_from_the_form() {
    let state = LauncherState {
        target: "/opt/tool/run.sh".to_string(),
        arguments: "--name \"two words\"".to_string(),
        env: "A=1; B=2".to_string(),
        ..LauncherState::default()
    };
    let resolved = resolve_program_target("/opt/tool/run.sh", Some("/opt/tool".to_string()));
    let plan = plan_launch(&state, resolved, None, None).expect("plan");
    assert_eq!(plan.listen, "127.0.0.1:8080");
    assert_eq!(plan.max_body_size, 1048576);
    assert_eq!(plan.command, ["/opt/tool/run.sh", "--name", "two words"]);
    assert_eq!(plan.workdir, "/opt/tool");
    assert_eq!(plan.env, ["A=1", "B=2"]);
    assert!(plan.no_tls_decryption);
    assert!(!plan.no_extra_ca_env);

    let bad = LauncherState { listen: "localhost".to_string(), ..LauncherState::default() };
    let resolved = resolve_program_target("x", None);
    assert_eq!(
        plan_launch(&bad, resolved, None, None).unwrap_err(),
        "invalid proxy listen address 'localhost'"
    );
    let bad = LauncherState { max_body_size: "-1".to_string(), ..LauncherState::default() };
    let resolved = resolve_program_target("x", None);
    assert_eq!(plan_launch(&bad, resolved, None, None).unwrap_err(), "invalid max body size '-1'");
}

#[test]
fn switches_to_the_file_list_for_a_folder() {
    let mut state = LauncherState::default();
    assert!(!apply_start_check(&mut state, "/nowhere", StartCheck::Missing));
    assert_eq!(state.message, "Path does not exist: /nowhere");
    assert!(!apply_start_check(&mut state, "/games", StartCheck::Folder(Ok(options(&["a", "b"])))));
    assert_eq!(state.screen, LauncherScreen::LaunchSelect);
    assert_eq!(state.launch_options.len(), 2);
    assert!(apply_start_check(&mut state, "/games/a", StartCheck::File { launchable: true }));
}

#[test]
fn reads_environment_pairs() {
    let pairs = parse_env_pairs(&vec!["A=1".to_string(), "B=x=y".to_string()]).unwrap();
    assert_eq!(pairs, [("A".to_string(), "1".to_string()), ("B".to_string(), "x=y".to_string())]);
    assert_eq!(
        parse_env_pairs(&vec!["A=1".to_string(), "nope".to_string()]).unwrap_err(),
        "invalid --env value 'nope', expected KEY=VALUE"
    );
    assert_eq!(parse_env_pairs(&vec!["=1".to_string()]).unwrap_err(), "invalid environment key ''");
}

#[test]
fn refuses_external_listeners_unless_allowed() {
    assert_eq!(listen_check("127.0.0.1:8080", true, false), Ok(None));
    assert!(listen_check("0.0.0.0:8080", false, false).unwrap_err().starts_with("refusing to listen on 0.0.0.0:8080"));
    assert_eq!(
        listen_check("0.0.0.0:8080", false, true),
        Ok(Some("Warning: proxy is listening on 0.0.0.0:8080. Other hosts may be able to connect.".to_string()))
    );
}
