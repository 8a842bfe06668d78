use std::io::Write;

use flate2::write::GzEncoder;
use flate2::Compression;
use tlscope::capture::decode::decode_body_for_preview;
use tlscope::capture::export::export_curl;
use tlscope::capture::filter_suggestions::{build_filter_suggestions, current_token};
use tlscope::capture::model::{CapturedBody, TrafficEntry};
use tlscope::capture::redact::{redact_body, redact_headers, RedactionConfig};
use tlscope::capture::store::{FilterIndex, TrafficFilter};

fn sample_entry(method: &str, scheme: &str, host: &str, port: u16, path: &str) -> TrafficEntry {
    TrafficEntry {
        id: 1,
        started_at_nanos: 0,
        duration_nanos: 10_000_000,
        process_id: None,
        scheme: scheme.to_string(),
        host: host.to_string(),
        port,
        method: method.to_string(),
        path: path.to_string(),
        http_version: "HTTP/1.1".to_string(),
        request_headers: Vec::new(),
        request_body: CapturedBody::empty(),
        response_status: Some(200),
        response_headers: Vec::new(),
        response_body: CapturedBody::empty(),
        request_size: 0,
        response_size: 0,
        tls: None,
        error: None,
    }
}

fn filter_entry() -> TrafficEntry {
    TrafficEntry {
        id: 1,
        started_at_nanos: 0,
        duration_nanos: 750_000_000,
        process_id: Some(10),
        scheme: "https".to_string(),
        host: "api.example.com".to_string(),
        port: 443,
        method: "POST".to_string(),
        path: "/v1/users".to_string(),
        http_version: "HTTP/1.1".to_string(),
        request_headers: Vec::new(),
        request_body: CapturedBody::from_bytes(
            b"{}",
            1024,
            Some("application/json".to_string()),
            None,
        ),
        response_status: Some(404),
        response_headers: Vec::new(),
        response_body: CapturedBody::empty(),
        request_size: 2,
        response_size: 0,
        tls: None,
        error: None,
    }
}

fn login_entry(headers: Vec<(String, String)>, body: CapturedBody) -> TrafficEntry {
    TrafficEntry {
        id: 1,
        started_at_nanos: 0,
        duration_nanos: 25_000_000,
        process_id: Some(42),
        scheme: "https".to_string(),
        host: "api.example.com".to_string(),
        port: 443,
        method: "POST".to_string(),
        path: "/login".to_string(),
        http_version: "HTTP/1.1".to_string(),
        request_headers: headers,
        request_body: body,
        response_status: Some(200),
        response_headers: Vec::new(),
        response_body: CapturedBody::empty(),
        request_size: 0,
        response_size: 0,
        tls: None,
        error: None,
    }
}

#[test]
fn decodes_chunked_gzip_body_for_preview() {
    let mut encoder = GzEncoder::new(Vec::new(), Compression::default());
    encoder.write_all(br#"{"ok":true}"#).unwrap();
    let gzip = encoder.finish().unwrap();
    let mut wire = format!("{:x}\r\n", gzip.len()).into_bytes();
    wire.extend_from_slice(&gzip);
    wire.extend_from_slice(b"\r\n0\r\n\r\n");

    let mut body = CapturedBody::from_bytes(
        &wire,
        4096,
        Some("application/json".to_string()),
        Some("gzip".to_string()),
    );
    body.transfer_encoding = Some("chunked".to_string());

    let decoded = decode_body_for_preview(&body);

    assert!(decoded.transfer_decoded);
    assert!(decoded.content_decoded);
    assert!(decoded.warnings.is_empty());
    assert_eq!(decoded.bytes, br#"{"ok":true}"#);
}

#[test]
fn finds_current_token_around_cursor() {
    let text = "method:POST host:api";
    let range = current_token(text, text.len());
    assert_eq!(&text[range.start..range.end], "host:api");
}

#[test]
fn suggests_keys_by_prefix() {
    let suggestions = build_filter_suggestions("st", 2, &FilterIndex::default());
    assert_eq!(suggestions[0].replacement, "status:");
}

#[test]
fn formats_connect_target_without_duplicating_host() {
    let entry = sample_entry("CONNECT", "https", "github.com", 443, "github.com:443");

    assert_eq!(entry.display_target(), "github.com:443");
    assert_eq!(entry.url(), "https://github.com:443");
}

#[test]
fn formats_regular_request_target_as_host_and_path() {
    let entry = sample_entry("GET", "https", "github.com", 443, "/repos");

    assert_eq!(entry.display_target(), "github.com/repos");
    assert_eq!(entry.url(), "https://github.com/repos");
}

#[test]
fn redacts_default_headers() {
    let headers = vec![
        ("Authorization".to_string(), "Bearer abc".to_string()),
        ("Accept".to_string(), "application/json".to_string()),
    ];
    let redacted = redact_headers(&headers, &RedactionConfig::new(false, false));
    assert_eq!(redacted[0].1, "<redacted>");
    assert_eq!(redacted[1].1, "application/json");
}

#[test]
fn redacts_json_fields_when_enabled() {
    let body = CapturedBody::from_bytes(
        br#"{"user":"a","password":"secret","nested":{"token":"x"}}"#,
        1024,
        Some("application/json".to_string()),
        None,
    );
    let redacted = redact_body(&body, &RedactionConfig::new(true, false));
    let text = String::from_utf8(redacted.bytes).unwrap_or_default();
    assert!(text.contains("<redacted>"));
    assert!(!text.contains("secret"));
    assert!(!text.contains("\"x\""));
}

#[test]
fn parses_and_matches_and_filters() {
    let filter = TrafficFilter::parse(
        "method:POST host:api.example.com path:/v1 status:>=400 type:json has:request-body duration:>500ms error:false tls:false",
    )
    .unwrap_or_default();
    assert!(filter.matches(&filter_entry()));
}

#[test]
fn rejects_unknown_filter() {
    assert!(TrafficFilter::parse("thread:main").is_err());
}

#[test]
fn redacts_headers_json_and_curl_by_default() {
    let config = RedactionConfig::new(true, false);
    let headers = vec![
        ("Authorization".to_string(), "Bearer secret".to_string()),
        ("Content-Type".to_string(), "application/json".to_string()),
    ];
    let redacted_headers = redact_headers(&headers, &config);
    assert_eq!(redacted_headers[0].1, "<redacted>");

    let body = CapturedBody::from_bytes(
        br#"{"password":"secret","name":"alice"}"#,
        1024,
        Some("application/json".to_string()),
        None,
    );
    let redacted_body = redact_body(&body, &config);
    let text = String::from_utf8(redacted_body.bytes).unwrap();
    assert!(text.contains("<redacted>"));
    assert!(!text.contains("secret"));

    let entry = login_entry(headers, body);
    let curl = export_curl(&entry, &config);
    assert!(curl.contains("<redacted>"));
    assert!(!curl.contains("Bearer secret"));
}
