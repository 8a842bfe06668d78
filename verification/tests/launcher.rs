use tlscope::interactive::{
    ca_trust_value, filtered_launch_indices, launch_format_list, parse_internet_shortcut_url,
    powershell_single_quoted_literal, split_args, LaunchOption, LauncherState,
};
use tlscope::process::launcher::build_proxy_environment;

#[test]
fn shows_ca_trust_action_without_requiring_https_inspection() {
    let state = LauncherState::default();
    assert!(ca_trust_value(&state).contains("install/check"));
}

#[test]
fn splits_quoted_arguments() {
    let args = split_args(r#"--name "Geometry Dash" --flag 'two words'"#).expect("split");
    assert_eq!(args, ["--name", "Geometry Dash", "--flag", "two words"]);
}

#[test]
fn filters_launch_options_by_name() {
    let state = LauncherState {
        launch_options: vec![
            LaunchOption {
                path: "AlphaTool.exe".into(),
                kind: launch_format_list()[0],
            },
            LaunchOption {
                path: "BetaTool.exe".into(),
                kind: launch_format_list()[0],
            },
        ],
        launch_filter: "alpha".to_string(),
        ..LauncherState::default()
    };

    assert_eq!(filtered_launch_indices(&state), vec![0]);
}

#[test]
fn quotes_powershell_shortcut_paths() {
    assert_eq!(
        powershell_single_quoted_literal(r"C:\Apps\Bob's Tool.lnk"),
        r"'C:\Apps\Bob''s Tool.lnk'"
    );
}

#[test]
fn builds_proxy_environment_with_extra_ca() {
    let env = build_proxy_environment("127.0.0.1:18080", Some("ca.pem"), false);
    assert!(env
        .iter()
        .any(|(k, v)| k == "HTTP_PROXY" && v == "http://127.0.0.1:18080"));
    assert!(env.iter().any(|(k, _)| k == "NODE_EXTRA_CA_CERTS"));
}

#[test]
fn can_disable_extra_ca_environment() {
    let env = build_proxy_environment("127.0.0.1:18080", Some("ca.pem"), true);
    assert!(!env.iter().any(|(k, _)| k == "NODE_EXTRA_CA_CERTS"));
}

#[test]
fn reads_url_from_internet_shortcut_text() {
    assert_eq!(
        parse_internet_shortcut_url("[InternetShortcut]\nURL=steam://rungameid/2060160\n"),
        Some("steam://rungameid/2060160".to_string())
    );
    assert_eq!(
        parse_internet_shortcut_url("\u{feff}url = https://example.com \r\n"),
        Some("https://example.com".to_string())
    );
    assert_eq!(parse_internet_shortcut_url("[InternetShortcut]\nURL=\n"), None);
    assert_eq!(parse_internet_shortcut_url("IconFile=x.ico"), None);
}

#[test]
fn rejects_unterminated_quotes_in_arguments() {
    assert!(split_args("--name \"open").is_err());
}
