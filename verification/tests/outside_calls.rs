use std::io::Write;

use flate2::write::{DeflateEncoder, ZlibEncoder};
use flate2::Compression;
use tlscope::capture::decode::decode_body_for_preview;
use tlscope::capture::details::{overview_text_with, request_text};
use tlscope::capture::export::export_curl;
use tlscope::capture::har::{har_bytes, har_document_with};
use tlscope::capture::json::JsonValue;
use tlscope::capture::model::{authority_text, CapturedBody, TrafficEntry};
use tlscope::capture::redact::{redact_body, RedactionConfig};
use tlscope::certificates::authority::{ca_der_from_pem, fingerprint_der, fingerprint_pem};
use tlscope::process::logs::sanitize_output_line;

fn entry_with(path: &str, body: CapturedBody) -> TrafficEntry {
    TrafficEntry {
        id: 1,
        started_at_nanos: 0,
        duration_nanos: 0,
        process_id: None,
        scheme: "http".to_string(),
        host: "example.test".to_string(),
        port: 80,
        method: "POST".to_string(),
        path: path.to_string(),
        http_version: "HTTP/1.1".to_string(),
        request_headers: Vec::new(),
        request_body: body,
        response_status: None,
        response_headers: Vec::new(),
        response_body: CapturedBody::empty(),
        request_size: 0,
        response_size: 0,
        tls: None,
        error: None,
    }
}

#[test]
fn fingerprints_der_bytes_with_sha256() {
    assert_eq!(
        fingerprint_der(b""),
        "E3B0C44298FC1C149AFBF4C8996FB92427AE41E4649B934CA495991B7852B855"
    );
    assert_eq!(
        fingerprint_der(b"abc"),
        "BA7816BF8F01CFEA414140DE5DAE2223B00361A396177A9CB410FF61F20015AD"
    );
}

#[test]
fn decodes_zlib_and_raw_deflate_bodies() {
    let mut zlib = ZlibEncoder::new(Vec::new(), Compression::default());
    zlib.write_all(b"zlib body").unwrap_or_default();
    let zlib = zlib.finish().unwrap_or_default();
    let body = CapturedBody::from_bytes(&zlib, 4096, None, Some("deflate".to_string()));
    let decoded = decode_body_for_preview(&body);
    assert!(decoded.content_decoded);
    assert_eq!(decoded.bytes, b"zlib body");

    let mut raw = DeflateEncoder::new(Vec::new(), Compression::default());
    raw.write_all(b"raw body").unwrap_or_default();
    let raw = raw.finish().unwrap_or_default();
    let body = CapturedBody::from_bytes(&raw, 4096, None, Some("deflate".to_string()));
    let decoded = decode_body_for_preview(&body);
    assert!(decoded.content_decoded);
    assert_eq!(decoded.bytes, b"raw body");
}

#[test]
fn exports_binary_bodies_as_base64_in_curl() {
    let entry = entry_with("/up", CapturedBody::from_bytes(&[0xff, 0xfe], 16, None, None));
    let curl = export_curl(&entry, &RedactionConfig::new(false, false));
    assert!(curl.contains("'@<(base64 -d <<<'\\''//4='\\'')'"));
}

#[test]
fn lists_query_parameters_decoded() {
    let entry = entry_with("/search?q=a%20b&page=2", CapturedBody::empty());
    let text = request_text(&entry);
    assert!(text.contains("Query parameters:\nq=a b\npage=2\n"));
}

#[test]
fn redacts_form_fields_and_reencodes_the_form() {
    let body = CapturedBody::from_bytes(
        b"user=a&password=secret",
        1024,
        Some("application/x-www-form-urlencoded".to_string()),
        None,
    );
    let redacted = redact_body(&body, &RedactionConfig::new(true, false));
    assert_eq!(redacted.bytes, b"user=a&password=%3Credacted%3E".to_vec());
}

#[test]
fn brackets_ipv6_hosts_with_ports() {
    let scheme = "http".to_string();
    assert_eq!(authority_text(&scheme, &"::1".to_string(), 8080, false), "[::1]:8080");
    assert_eq!(authority_text(&scheme, &"example.test".to_string(), 8080, false), "example.test:8080");
}

#[test]
fn shows_invalid_utf8_output_with_replacement_characters() {
    assert_eq!(sanitize_output_line(b"ok \xff\n", 100), "ok \u{fffd}");
}

#[test]
fn reads_the_first_certificate_of_a_ca_pem() {
    assert_eq!(ca_der_from_pem(""), Err("CA PEM contains no certificate".to_string()));
    let pem = "-----BEGIN CERTIFICATE-----\nYWJj\n-----END CERTIFICATE-----\n";
    assert_eq!(ca_der_from_pem(pem), Ok(b"abc".to_vec()));
    assert_eq!(fingerprint_pem(pem), Ok(fingerprint_der(b"abc")));
}

#[test]
fn redacting_one_json_body_twice_gives_the_same_bytes() {
    let body = CapturedBody::from_bytes(
        br#"{"b":[1,{"token":"x"}],"password":"secret","a":true}"#,
        1024,
        Some("application/json".to_string()),
        None,
    );
    let config = RedactionConfig::new(true, false);
    let first = redact_body(&body, &config);
    let second = redact_body(&body, &config);
    assert_eq!(first.bytes, second.bytes);
    let text = String::from_utf8(first.bytes).unwrap();
    assert!(!text.contains("secret"));
    assert!(!text.contains("\"x\""));
    assert!(text.contains("\"a\": true"));
}

#[test]
fn writes_the_overview_tab_with_given_times() {
    let mut entry = entry_with("/a", CapturedBody::empty());
    entry.response_status = Some(201);
    entry.duration_nanos = 1_500_000;
    entry.request_size = 2048;
    let text = overview_text_with(&entry, "S", "C");
    assert_eq!(
        text,
        "URL: http://example.test/a\nMethod: POST\nStatus: OK 201\nDuration: 1ms\nRequest size: 2.0 KB\nResponse size: 0 B\nContent-Type: N/A\nRemote IP: N/A\nPID: N/A\nStarted: S\nCompleted: C\nError: N/A"
    );
}

#[test]
fn exports_entries_as_har_with_redacted_headers() {
    let mut entry = entry_with("/login?x=1", CapturedBody::from_bytes(b"abc", 1024, None, None));
    entry.duration_nanos = 1_500_000;
    entry.request_headers = vec![
        ("Authorization".to_string(), "Bearer secret".to_string()),
        ("Accept".to_string(), "*/*".to_string()),
    ];
    let config = RedactionConfig::new(true, false);
    let bytes = har_bytes(&[entry], &config);
    let har: serde_json::Value = serde_json::from_slice(&bytes).unwrap();
    assert_eq!(har["log"]["version"], "1.2");
    assert_eq!(har["log"]["creator"]["name"], "TLScope");
    let first = &har["log"]["entries"][0];
    assert_eq!(first["time"], 1);
    assert_eq!(first["request"]["method"], "POST");
    assert_eq!(first["request"]["url"], "http://example.test/login?x=1");
    assert_eq!(first["request"]["httpVersion"], "HTTP/1.1");
    assert_eq!(first["request"]["headers"][0]["name"], "Authorization");
    assert_eq!(first["request"]["headers"][0]["value"], "<redacted>");
    assert_eq!(first["request"]["headers"][1]["value"], "*/*");
    assert_eq!(first["request"]["bodySize"], 3);
    assert_eq!(first["response"]["status"], 0);
    assert_eq!(first["response"]["statusText"], "OPEN");
    assert_eq!(first["response"]["httpVersion"], "HTTP/1.1");
    assert_eq!(first["response"]["bodySize"], 0);
    assert_eq!(first["timings"]["send"], -1);
    assert_eq!(first["timings"]["receive"], -1);
    assert!(first["cache"].as_object().unwrap().is_empty());
    assert!(!String::from_utf8(bytes).unwrap().contains("Bearer secret"));
}

#[test]
fn writes_the_given_start_time_into_a_har_entry() {
    let entry = entry_with("/", CapturedBody::empty());
    let document = har_document_with(&[entry], &RedactionConfig::new(true, false), &["S".to_string()]);
    let JsonValue::Object(members) = document else { panic!("not an object") };
    let JsonValue::Object(log) = &members[0].1 else { panic!("no log") };
    let JsonValue::Array(entries) = &log[2].1 else { panic!("no entries") };
    let JsonValue::Object(fields) = &entries[0] else { panic!("no entry") };
    assert_eq!(fields[0].0, "startedDateTime");
    assert!(matches!(&fields[0].1, JsonValue::Str(s) if s == "S"));
}
