use tlscope::capture::model::CapturedBody;
use tlscope::proxy::body::{BodyDirection, BodyForwarder, BodyStep, BODY_READ_CHUNK};
use tlscope::proxy::client::{client_step, ClientAction, ClientContext, ClientEvent, ClientState, InnerHead};
use tlscope::proxy::exchange::{
    error_entry, exchange_step, exchange_target, ExchangeAction, ExchangeContext, ExchangeEvent, ExchangeMode,
    ExchangeState,
};
use tlscope::proxy::h2::{
    approx_headers_size, capture_h2_request_headers, forwardable_h2_header, h2_entry, h2_error_entry, H2Head,
    H2ResponseHead,
};
use tlscope::proxy::connect::ConnectTarget;
use tlscope::proxy::http::parse_request;

fn context(head: &[u8], initial_body_len: u64, mode: ExchangeMode) -> ExchangeContext {
    ExchangeContext {
        id: 7,
        started_at_nanos: 100,
        process_id: Some(42),
        request: parse_request(head).expect("request"),
        initial_body_len,
        mode,
    }
}

#[test]
fn refuses_chunked_request_bodies_with_501() {
    let ctx = context(
        b"POST http://example.com/upload HTTP/1.1\r\nHost: example.com\r\nTransfer-Encoding: chunked\r\n\r\n",
        0,
        ExchangeMode::PlainFromRequest,
    );
    let (state, action) = exchange_step(&ctx, ExchangeState::Start, ExchangeEvent::Begin, 1);
    match action {
        ExchangeAction::Respond { status, reason, body } => {
            assert_eq!(status, 501);
            assert_eq!(reason, "Not Implemented");
            assert_eq!(body, "chunked request bodies are not supported by this HTTP/1.1 MVP");
        }
        other => panic!("unexpected action {other:?}"),
    }
    let (state, action) = exchange_step(&ctx, state, ExchangeEvent::Responded, 5);
    assert!(matches!(state, ExchangeState::Finished));
    match action {
        ExchangeAction::Record { entry } => {
            assert_eq!(entry.response_status, Some(501));
            assert_eq!(entry.error.as_deref(), Some("unsupported HTTP feature: chunked request body"));
            assert_eq!(entry.host, "example.com");
            assert_eq!(entry.path, "/upload");
            assert_eq!(entry.duration_nanos, 5);
        }
        other => panic!("unexpected action {other:?}"),
    }
}

#[test]
fn runs_a_plain_exchange_to_its_recorded_entry() {
    let ctx = context(
        b"GET http://example.com:8080/hello?x=1 HTTP/1.1\r\nHost: example.com:8080\r\n\r\n",
        0,
        ExchangeMode::PlainFromRequest,
    );
    let (state, action) = exchange_step(&ctx, ExchangeState::Start, ExchangeEvent::Begin, 1);
    match &action {
        ExchangeAction::Connect { target, tls } => {
            assert_eq!(target.host, "example.com");
            assert_eq!(target.port, 8080);
            assert!(!tls);
        }
        other => panic!("unexpected action {other:?}"),
    }
    let (state, action) = exchange_step(&ctx, state, ExchangeEvent::Connected { tls: None }, 2);
    let head_len = match action {
        ExchangeAction::SendRequest { head, early_websocket, content_length } => {
            let text = String::from_utf8(head.clone()).unwrap();
            assert!(text.starts_with("GET /hello?x=1 HTTP/1.1\r\n"));
            assert!(!early_websocket);
            assert_eq!(content_length, 0);
            head.len() as u64
        }
        other => panic!("unexpected action {other:?}"),
    };
    let (state, action) = exchange_step(
        &ctx,
        state,
        ExchangeEvent::RequestSent { body: CapturedBody::empty(), size: 0 },
        3,
    );
    assert!(matches!(action, ExchangeAction::ReadResponseHead));
    let response = b"HTTP/1.1 200 OK\r\nContent-Length: 5\r\n\r\n".to_vec();
    let (state, action) = exchange_step(
        &ctx,
        state,
        ExchangeEvent::HeadRead { head: Some((response.clone(), b"hel".to_vec())) },
        4,
    );
    match &action {
        ExchangeAction::ForwardBody { content_length, initial, .. } => {
            assert_eq!(*content_length, Some(5));
            assert_eq!(initial, b"hel");
        }
        other => panic!("unexpected action {other:?}"),
    }
    let body = CapturedBody::from_bytes(b"hello", 1024, None, None);
    let (state, action) = exchange_step(&ctx, state, ExchangeEvent::BodyForwarded { body, size: 5 }, 9);
    assert!(matches!(state, ExchangeState::Finished));
    match action {
        ExchangeAction::Record { entry } => {
            assert_eq!(entry.id, 7);
            assert_eq!(entry.method, "GET");
            assert_eq!(entry.path, "/hello?x=1");
            assert_eq!(entry.response_status, Some(200));
            assert_eq!(entry.request_size, head_len);
            assert_eq!(entry.response_size, response.len() as u64 + 5);
            assert_eq!(entry.response_body.bytes, b"hello");
            assert_eq!(entry.duration_nanos, 9);
            assert!(entry.error.is_none());
        }
        other => panic!("unexpected action {other:?}"),
    }
}

#[test]
fn tunnels_an_accepted_websocket_upgrade() {
    let ctx = context(
        b"GET /socket HTTP/1.1\r\nHost: example.com\r\nUpgrade: websocket\r\nConnection: Upgrade\r\n\r\n",
        4,
        ExchangeMode::PlainFromRequest,
    );
    let (state, _) = exchange_step(&ctx, ExchangeState::Start, ExchangeEvent::Begin, 1);
    let (state, action) = exchange_step(&ctx, state, ExchangeEvent::Connected { tls: None }, 2);
    let head_len = match action {
        ExchangeAction::SendRequest { head, early_websocket, .. } => {
            assert!(early_websocket);
            assert!(String::from_utf8(head.clone()).unwrap().contains("Upgrade: websocket"));
            head.len() as u64
        }
        other => panic!("unexpected action {other:?}"),
    };
    let (state, _) = exchange_step(
        &ctx,
        state,
        ExchangeEvent::RequestSent { body: CapturedBody::from_bytes(b"xxxx", 10, None, None), size: 99 },
        3,
    );
    let response = b"HTTP/1.1 101 Switching Protocols\r\nUpgrade: websocket\r\nConnection: Upgrade\r\n\r\n".to_vec();
    let (state, action) = exchange_step(
        &ctx,
        state,
        ExchangeEvent::HeadRead { head: Some((response.clone(), b"hi".to_vec())) },
        4,
    );
    assert!(matches!(action, ExchangeAction::Tunnel { .. }));
    let (_, action) = exchange_step(&ctx, state, ExchangeEvent::TunnelClosed { result: Ok((10, 20)) }, 5);
    match action {
        ExchangeAction::Record { entry } => {
            assert_eq!(entry.response_status, Some(101));
            assert_eq!(entry.request_body.bytes.len(), 0);
            assert_eq!(entry.request_size, head_len + 4 + 10);
            assert_eq!(entry.response_size, response.len() as u64 + 2 + 20);
        }
        other => panic!("unexpected action {other:?}"),
    }
}

#[test]
fn answers_bad_gateway_when_upstream_fails() {
    let ctx = context(
        b"GET /a HTTP/1.1\r\nHost: example.com\r\n\r\n",
        0,
        ExchangeMode::PlainFromRequest,
    );
    let (state, _) = exchange_step(&ctx, ExchangeState::Start, ExchangeEvent::Begin, 1);
    let (state, action) = exchange_step(
        &ctx,
        state,
        ExchangeEvent::Failed { error: "cannot connect to upstream example.com:80".to_string() },
        2,
    );
    match action {
        ExchangeAction::Respond { status, reason, body } => {
            assert_eq!(status, 502);
            assert_eq!(reason, "Bad Gateway");
            assert_eq!(body, "cannot connect to upstream example.com:80");
        }
        other => panic!("unexpected action {other:?}"),
    }
    let (_, action) = exchange_step(&ctx, state, ExchangeEvent::Responded, 3);
    match action {
        ExchangeAction::Record { entry } => {
            assert_eq!(entry.response_status, None);
            assert_eq!(entry.error.as_deref(), Some("cannot connect to upstream example.com:80"));
            assert_eq!(entry.port, 80);
        }
        other => panic!("unexpected action {other:?}"),
    }
}

#[test]
fn refuses_https_urls_without_connect() {
    let request = parse_request(b"GET https://example.com/ HTTP/1.1\r\nHost: example.com\r\n\r\n").unwrap();
    assert_eq!(
        exchange_target(&request, &ExchangeMode::PlainFromRequest).unwrap_err(),
        "HTTPS without CONNECT is not supported; configure the client to use CONNECT"
    );
    let target = exchange_target(
        &request,
        &ExchangeMode::TlsTo { host: "example.com".to_string(), port: 443 },
    )
    .unwrap();
    assert_eq!(target.scheme, "https");
    assert_eq!(target.path, "/");
}

#[test]
fn error_entry_falls_back_to_the_raw_path() {
    let request = parse_request(b"GET /only-path HTTP/1.1\r\n\r\n").unwrap();
    let entry = error_entry(1, 2, 3, None, &request, "boom".to_string());
    assert_eq!(entry.scheme, "http");
    assert_eq!(entry.host, "");
    assert_eq!(entry.port, 0);
    assert_eq!(entry.path, "/only-path");
    assert_eq!(entry.error.as_deref(), Some("boom"));
}

fn client_context(tls_decryption: bool, authority_available: bool) -> ClientContext {
    ClientContext { id: 3, started_at_nanos: 0, process_id: None, tls_decryption, authority_available }
}

#[test]
fn answers_unparsable_heads_with_400() {
    let ctx = client_context(true, true);
    let (state, action) = client_step(
        &ctx,
        ClientState::Start,
        ClientEvent::HeadRead { head: Some((b"\x01\x02 nonsense\r\n\r\n".to_vec(), Vec::new())) },
        0,
    );
    match action {
        ClientAction::Respond { status, reason, .. } => {
            assert_eq!(status, 400);
            assert_eq!(reason, "Bad Request");
        }
        other => panic!("unexpected action {other:?}"),
    }
    let (_, action) = client_step(&ctx, state, ClientEvent::Responded, 1);
    assert!(matches!(action, ClientAction::Close));
}

#[test]
fn tunnels_connect_without_decryption() {
    let ctx = client_context(false, false);
    let (state, action) = client_step(
        &ctx,
        ClientState::Start,
        ClientEvent::HeadRead {
            head: Some((b"CONNECT example.com:8443 HTTP/1.1\r\nHost: example.com:8443\r\n\r\n".to_vec(), Vec::new())),
        },
        0,
    );
    match &action {
        ClientAction::ConnectUpstream { host, port } => {
            assert_eq!(host, "example.com");
            assert_eq!(*port, 8443);
        }
        other => panic!("unexpected action {other:?}"),
    }
    let (state, action) = client_step(&ctx, state, ClientEvent::UpstreamConnected, 1);
    assert!(matches!(action, ClientAction::Acknowledge));
    let (state, action) = client_step(&ctx, state, ClientEvent::Acknowledged, 2);
    assert!(matches!(action, ClientAction::CopyBoth));
    let (_, action) = client_step(&ctx, state, ClientEvent::TunnelClosed { result: Ok((11, 22)) }, 3);
    match action {
        ClientAction::Record { entry } => {
            assert_eq!(entry.method, "CONNECT");
            assert_eq!(entry.path, "example.com:8443");
            assert_eq!(entry.response_status, Some(200));
            assert_eq!((entry.request_size, entry.response_size), (11, 22));
        }
        other => panic!("unexpected action {other:?}"),
    }
}

#[test]
fn records_connect_without_ca_as_502() {
    let ctx = client_context(true, false);
    let (state, action) = client_step(
        &ctx,
        ClientState::Start,
        ClientEvent::HeadRead { head: Some((b"CONNECT example.com:443 HTTP/1.1\r\n\r\n".to_vec(), Vec::new())) },
        0,
    );
    match action {
        ClientAction::Respond { status, reason, body } => {
            assert_eq!(status, 502);
            assert_eq!(reason, "TLS Inspection Disabled");
            assert_eq!(body, "local CA is not available for HTTPS inspection");
        }
        other => panic!("unexpected action {other:?}"),
    }
    let (_, action) = client_step(&ctx, state, ClientEvent::Responded, 4);
    match action {
        ClientAction::Record { entry } => {
            assert_eq!(entry.response_status, Some(502));
            assert_eq!(entry.error.as_deref(), Some("local CA is not available for HTTPS inspection"));
        }
        other => panic!("unexpected action {other:?}"),
    }
}

#[test]
fn runs_the_request_inside_an_inspected_connection() {
    let ctx = client_context(true, true);
    let (state, action) = client_step(
        &ctx,
        ClientState::Start,
        ClientEvent::HeadRead { head: Some((b"CONNECT localhost:9443 HTTP/1.1\r\n\r\n".to_vec(), Vec::new())) },
        0,
    );
    assert!(matches!(action, ClientAction::MakeLeaf { .. }));
    let (state, action) = client_step(&ctx, state, ClientEvent::LeafReady, 1);
    assert!(matches!(action, ClientAction::AcceptTls));
    let (state, action) = client_step(&ctx, state, ClientEvent::TlsAccepted { alpn_h2: false }, 2);
    assert!(matches!(action, ClientAction::ReadInnerHead));
    let (_, action) = client_step(
        &ctx,
        state,
        ClientEvent::InnerHeadRead {
            result: InnerHead::Read { head: b"GET /secure HTTP/1.1\r\nHost: localhost\r\n\r\n".to_vec(), initial: Vec::new() },
        },
        3,
    );
    match action {
        ClientAction::Exchange { request, mode, .. } => {
            assert_eq!(request.path, "/secure");
            match mode {
                ExchangeMode::TlsTo { host, port } => {
                    assert_eq!(host, "localhost");
                    assert_eq!(port, 9443);
                }
                other => panic!("unexpected mode {other:?}"),
            }
        }
        other => panic!("unexpected action {other:?}"),
    }
}

#[test]
fn records_a_client_that_leaves_an_inspected_connection() {
    let ctx = client_context(true, true);
    let state = ClientState::ReadingRequest { target: ConnectTarget { host: "a.test".to_string(), port: 443 } };
    let (_, action) = client_step(&ctx, state, ClientEvent::InnerHeadRead { result: InnerHead::Closed }, 5);
    match action {
        ClientAction::Record { entry } => {
            assert_eq!(entry.response_status, Some(200));
            assert_eq!(
                entry.error.as_deref(),
                Some("client closed inspected TLS tunnel before sending an HTTP request")
            );
        }
        other => panic!("unexpected action {other:?}"),
    }
}

#[test]
fn forwards_known_length_bodies_exactly() {
    let (mut f, first) = BodyForwarder::start(b"abcdef", Some(4), 2, None, None, None, BodyDirection::Request);
    assert_eq!(first, 4);
    assert_eq!(f.next_read_size(), None);
    let (body, written) = f.finish();
    assert_eq!(written, 4);
    assert_eq!(body.bytes, b"ab");
    assert!(body.truncated);

    let (mut f, first) = BodyForwarder::start(b"", Some(3), 10, None, None, None, BodyDirection::Response);
    assert_eq!(first, 0);
    assert_eq!(f.next_read_size(), Some(3));
    assert_eq!(f.on_read(b"xy"), BodyStep::Write);
    assert_eq!(f.next_read_size(), Some(1));
    assert_eq!(f.on_read(b""), BodyStep::ClosedEarly);
    assert_eq!(f.closed_early_text(), "upstream closed before full response body was sent");
}

#[test]
fn forwards_unknown_length_bodies_until_the_end() {
    let (mut f, first) = BodyForwarder::start(b"ab", None, 10, None, None, None, BodyDirection::Response);
    assert_eq!(first, 2);
    assert_eq!(f.next_read_size(), Some(BODY_READ_CHUNK));
    assert_eq!(f.on_read(b"cd"), BodyStep::Write);
    assert_eq!(f.on_read(b""), BodyStep::Finished);
    let (body, written) = f.finish();
    assert_eq!(written, 4);
    assert_eq!(body.bytes, b"abcd");
}

fn h2_head() -> H2Head {
    H2Head {
        method: "GET".to_string(),
        path_and_query: Some("/h2?x=1".to_string()),
        authority: Some("localhost:8443".to_string()),
        headers: vec![
            ("accept".to_string(), b"*/*".to_vec()),
            ("content-type".to_string(), b"text/plain".to_vec()),
        ],
    }
}

#[test]
fn keeps_connection_headers_out_of_http2() {
    assert!(!forwardable_h2_header("connection"));
    assert!(!forwardable_h2_header("transfer-encoding"));
    assert!(!forwardable_h2_header("upgrade"));
    assert!(forwardable_h2_header("accept"));
}

#[test]
fn captures_http2_pseudo_headers_first() {
    let headers = capture_h2_request_headers(&h2_head());
    assert_eq!(headers[0], (":method".to_string(), "GET".to_string()));
    assert_eq!(headers[1], (":scheme".to_string(), "https".to_string()));
    assert_eq!(headers[2], (":path".to_string(), "/h2?x=1".to_string()));
    assert_eq!(headers[3], (":authority".to_string(), "localhost:8443".to_string()));
    assert_eq!(headers[4], ("accept".to_string(), "*/*".to_string()));
    assert_eq!(approx_headers_size(&[("ab".to_string(), "cde".to_string())]), 9);
}

#[test]
fn records_http2_streams() {
    let target = ConnectTarget { host: "localhost".to_string(), port: 8443 };
    let response = H2ResponseHead { status: 200, headers: vec![("content-length".to_string(), b"5".to_vec())] };
    let tls = tlscope::capture::model::TlsInformation {
        host: "localhost".to_string(),
        tls_version: None,
        alpn: Some("h2".to_string()),
        certificate: None,
        verification: "verified".to_string(),
        child_certificate_note: String::new(),
    };
    let head = h2_head();
    let request_headers = capture_h2_request_headers(&head);
    let expected_request = approx_headers_size(&request_headers) + 3;
    let entry = h2_entry(
        1,
        2,
        3,
        None,
        &target,
        &head,
        &response,
        CapturedBody::empty(),
        3,
        CapturedBody::empty(),
        5,
        tls,
    );
    assert_eq!(entry.http_version, "HTTP/2");
    assert_eq!(entry.path, "/h2?x=1");
    assert_eq!(entry.request_size, expected_request);
    assert_eq!(entry.response_size, ("content-length".len() + 1 + 4 + 5) as u64);
    let failed = h2_error_entry(1, 2, 3, None, &target, &head, "stream reset".to_string());
    assert_eq!(failed.response_status, Some(502));
    assert_eq!(failed.error.as_deref(), Some("stream reset"));
}
