use rcgen::{date_time_ymd, generate_simple_self_signed, CertificateParams, KeyPair};
use tlscope::capture::details::epoch_offset;
use tlscope::capture::redact::RedactionConfig;
use tlscope::capture::store::FilterIndex;
use tlscope::certificates::authority::{
    certificate_information, fingerprint_der, legacy_ca_needs_recreate, removal_plan,
};
use tlscope::process::tracking::ProcessTrackingConfig;
use tlscope::proxy::http::{request_from_raw, response_from_raw, RawHead};
use tlscope::tui::filter::{backspace, insert_char, FilterEditorState};

fn self_signed_pem(from: Option<i32>) -> String {
    let mut params = match CertificateParams::new(vec!["ca.example.test".to_string()]) {
        Ok(params) => params,
        Err(error) => panic!("{error}"),
    };
    if let Some(year) = from {
        params.not_before = date_time_ymd(year, 1, 1);
        params.not_after = date_time_ymd(year + 10, 1, 1);
    }
    let key = match KeyPair::generate() {
        Ok(key) => key,
        Err(error) => panic!("{error}"),
    };
    match params.self_signed(&key) {
        Ok(cert) => cert.pem(),
        Err(error) => panic!("{error}"),
    }
}

#[test]
fn reads_certificate_details_from_der() {
    let certified = match generate_simple_self_signed(vec!["example.test".to_string()]) {
        Ok(certified) => certified,
        Err(error) => panic!("{error}"),
    };
    let der = certified.cert.der().to_vec();
    let info = match certificate_information(&der) {
        Ok(info) => info,
        Err(error) => panic!("{error}"),
    };
    assert_eq!(info.san, vec!["DNSName(example.test)".to_string()]);
    assert_eq!(info.sha256_fingerprint, fingerprint_der(&der));
    assert!(info.subject.contains("rcgen self signed cert"));
    assert!(info.valid_from.contains("1975"));
    assert!(info.valid_until.contains("4096"));
    let error = certificate_information(b"junk").err().unwrap_or_default();
    assert!(error.starts_with("cannot parse upstream certificate: "));
}

#[test]
fn recreates_only_cas_with_the_default_validity() {
    assert_eq!(legacy_ca_needs_recreate(&self_signed_pem(None)), Ok(true));
    assert_eq!(legacy_ca_needs_recreate(&self_signed_pem(Some(2024))), Ok(false));
    let error = legacy_ca_needs_recreate("not a pem").err().unwrap_or_default();
    assert!(error.starts_with("cannot parse existing CA certificate: "));
}

#[test]
fn splits_times_into_seconds_and_nanoseconds() {
    assert_eq!(epoch_offset(1_500_000_000, 700_000_000), (2, 200_000_000));
    assert_eq!(epoch_offset(u64::MAX, u64::MAX), (36_893_488_147, 419_103_230));
}

#[test]
fn explains_heads_that_httparse_could_not_read() {
    assert_eq!(request_from_raw(None).err(), Some("failed to parse HTTP request".to_string()));
    let no_method = RawHead {
        complete: true,
        method: None,
        path: Some("/".to_string()),
        code: None,
        version: Some(1),
        headers: Vec::new(),
    };
    assert_eq!(request_from_raw(Some(no_method)).err(), Some("HTTP request has no method".to_string()));
    let partial = RawHead {
        complete: false,
        method: None,
        path: None,
        code: Some(200),
        version: Some(1),
        headers: Vec::new(),
    };
    assert_eq!(
        response_from_raw(Some(partial)).err(),
        Some("incomplete HTTP response header".to_string())
    );
    let ok = RawHead {
        complete: true,
        method: None,
        path: None,
        code: Some(204),
        version: Some(1),
        headers: vec![("Content-Length".to_string(), b"0".to_vec())],
    };
    let response = match response_from_raw(Some(ok)) {
        Ok(response) => response,
        Err(error) => panic!("{error}"),
    };
    assert_eq!(response.status, 204);
    assert_eq!(response.content_length, Some(0));
}

#[test]
fn backspace_removes_the_typed_character() {
    let index = FilterIndex::default();
    let mut editor = FilterEditorState::default();
    editor.text = "hé".to_string();
    editor.cursor = 1;
    insert_char(&mut editor, &index, 'ß');
    assert_eq!(editor.text, "hßé");
    assert_eq!(editor.cursor, 3);
    backspace(&mut editor, &index);
    assert_eq!(editor.text, "hé");
    assert_eq!(editor.cursor, 1);
    assert!(editor.error.is_none());
}

#[test]
fn hides_added_headers_and_fields_in_any_case() {
    let mut config = RedactionConfig::new(true, false);
    config.add_header("X-Session".to_string());
    config.add_field("PIN".to_string());
    assert!(config.should_redact_header("x-session"));
    assert!(config.should_redact_header("Authorization"));
    assert!(!config.should_redact_header("Accept"));
    assert!(config.should_redact_field("pin"));
    let mut shown = RedactionConfig::new(true, true);
    shown.add_header("X-Session".to_string());
    assert!(!shown.should_redact_header("X-Session"));
}

#[test]
fn names_and_labels_a_plain_program_path() {
    let mut config = ProcessTrackingConfig::default();
    config.add_target_path("probe.exe");
    assert_eq!(config.label(), Some("probe"));
}

#[test]
fn names_a_program_path_with_trailing_separators_and_dot_components() {
    let mut config = ProcessTrackingConfig::default();
    config.add_target_path("tools/probe.exe/");
    assert_eq!(config.label(), Some("probe"));
    let mut dotted = ProcessTrackingConfig::default();
    dotted.add_target_path("tools/probe.exe/./");
    assert_eq!(dotted.label(), Some("probe"));
    let mut root = ProcessTrackingConfig::default();
    root.add_target_path("/");
    assert_eq!(root.label(), None);
}

#[test]
fn removes_ca_files_only_when_created_here_and_confirmed() {
    assert_eq!(removal_plan(false, true), None);
    assert_eq!(removal_plan(true, false), None);
    assert_eq!(removal_plan(false, false), None);
    assert_eq!(
        removal_plan(true, true),
        Some(vec!["TLScope-ca.pem", "TLScope-ca-key.pem", "TLScope-created"])
    );
}
