//! One HTTP/1.1 exchange through the proxy, as a state machine.
//!
//! The socket work (connecting, writing, reading, copying) is done by the caller;
//! `exchange_step` decides, from what the caller reports, what to do next and
//! which entry is recorded.

use crate::capture::model::{
    copy_headers, copy_opt_string, headers_view, opt_view, CapturedBody, CapturedBodyView, TlsInformation,
    TlsInformationView, TrafficEntry, TrafficEntryView,
};
use crate::capture::decode::lists_token;
use crate::proxy::http::{
    asks_websocket, has_chunked_transfer, is_websocket_upgrade_request, is_websocket_upgrade_response,
    parse_response, response_of, ParsedRequest, ParsedResponse, RequestView, ResponseView,
};
use crate::proxy::upstream::{
    build_upstream_header, build_upstream_upgrade_header, target_from_request, target_of, upstream_head,
    TargetView, UpstreamTarget,
};
use crate::text;
use vstd::prelude::*;

verus! {

/// How an exchange reaches its origin: from the request itself (plain HTTP), or to
/// the fixed host and port of an intercepted TLS connection.
#[derive(Debug)]
pub enum ExchangeMode {
    PlainFromRequest,
    TlsTo { host: String, port: u16 },
}

/// What an exchange knows from its start.
#[derive(Debug)]
pub struct ExchangeContext {
    pub id: u64,
    pub started_at_nanos: u64,
    pub process_id: Option<u32>,
    pub request: ParsedRequest,
    /// Bytes of the request body that arrived together with its head.
    pub initial_body_len: u64,
    pub mode: ExchangeMode,
}

/// What was sent upstream so far.
#[derive(Debug)]
pub struct SentRequest {
    pub target: UpstreamTarget,
    pub tls: Option<TlsInformation>,
    pub head_len: u64,
    pub request_body: CapturedBody,
    pub request_body_size: u64,
}

/// Where an exchange stands.
#[derive(Debug)]
pub enum ExchangeState {
    Start,
    /// The caller connects to `target`.
    Connecting { target: UpstreamTarget, websocket: bool },
    /// The caller sends the request head and body.
    Sending { target: UpstreamTarget, websocket: bool, early: bool, tls: Option<TlsInformation>, head_len: u64 },
    /// The caller reads the response head.
    AwaitingHead { sent: SentRequest, websocket: bool },
    /// The caller tunnels the upgraded connection.
    Tunneling { sent: SentRequest, response: ParsedResponse, response_head_len: u64, early_response: u64 },
    /// The caller forwards the response body.
    Streaming { sent: SentRequest, response: ParsedResponse, response_head_len: u64 },
    /// The caller writes an error response; then the failure is recorded.
    Failing { error: String, status: Option<u16>, answer_failure: bool },
    Finished,
}

/// What the caller reports.
#[derive(Debug)]
pub enum ExchangeEvent {
    Begin,
    Connected { tls: Option<TlsInformation> },
    RequestSent { body: CapturedBody, size: u64 },
    HeadRead { head: Option<(Vec<u8>, Vec<u8>)> },
    TunnelClosed { result: Result<(u64, u64), String> },
    BodyForwarded { body: CapturedBody, size: u64 },
    Responded,
    Failed { error: String },
}

/// What the caller does next.
#[derive(Debug)]
pub enum ExchangeAction {
    /// Connect to the target; over TLS when `tls`.
    Connect { target: UpstreamTarget, tls: bool },
    /// Write `head` upstream; then write the early bytes as they are when
    /// `early_websocket`, else forward `content_length` body bytes while capturing them.
    SendRequest { head: Vec<u8>, early_websocket: bool, content_length: u64 },
    ReadResponseHead,
    /// Write the response head and the early bytes to the client, then copy both ways.
    Tunnel { head: Vec<u8>, early: Vec<u8> },
    /// Write the response head to the client, then forward and capture the body.
    ForwardBody {
        head: Vec<u8>,
        initial: Vec<u8>,
        content_length: Option<u64>,
        content_type: Option<String>,
        content_encoding: Option<String>,
        transfer_encoding: Option<String>,
    },
    /// Write a simple response to the client.
    Respond { status: u16, reason: String, body: String },
    Record { entry: TrafficEntry },
    /// The event does not belong to this state: nothing to do.
    Idle,
}

/// The message of a request whose body is chunked.
pub open spec fn chunked_reason() -> Seq<char> {
    "chunked request bodies are not supported by this HTTP/1.1 MVP"@
}

/// The error recorded for a request whose body is chunked.
pub open spec fn chunked_error() -> Seq<char> {
    "unsupported HTTP feature: chunked request body"@
}

/// The error when plain HTTP names an `https` URL.
pub open spec fn https_without_connect() -> Seq<char> {
    "HTTPS without CONNECT is not supported; configure the client to use CONNECT"@
}

/// The model of the mode.
pub open spec fn mode_origin(mode: ExchangeMode) -> Option<(Seq<char>, Seq<char>, u16)> {
    match mode {
        ExchangeMode::PlainFromRequest => None,
        ExchangeMode::TlsTo { host, port } => Some(("https"@, host@, port)),
    }
}

/// Where the exchange goes: the request's target, which for plain HTTP must use
/// the `http` scheme.
pub open spec fn exchange_target_of(req: RequestView, mode: ExchangeMode) -> Result<TargetView, Seq<char>> {
    match target_of(req, mode_origin(mode)) {
        Ok(t) => if mode is PlainFromRequest && t.scheme != "http"@ {
            Err(https_without_connect())
        } else {
            Ok(t)
        },
        Err(e) => Err(e),
    }
}

/// Where the exchange goes.
pub fn exchange_target(request: &ParsedRequest, mode: &ExchangeMode) -> (r: Result<UpstreamTarget, String>)
    ensures
        match exchange_target_of(request@, *mode) {
            Ok(t) => r matches Ok(x) && x@ == t,
            Err(e) => r matches Err(m) && m@ == e,
        },
{
    match mode {
        ExchangeMode::PlainFromRequest => {
            let target = target_from_request(request, None)?;
            if !text::str_eq(target.scheme.as_str(), "http") {
                return Err(text::to_owned(
                    "HTTPS without CONNECT is not supported; configure the client to use CONNECT",
                ));
            }
            Ok(target)
        },
        ExchangeMode::TlsTo { host, port } => target_from_request(request, Some(("https", host.as_str(), *port))),
    }
}

/// The entry recorded for an exchange that failed with `error`: where the request
/// went as far as it can be told (else `http`, no host, port 0 and the raw path),
/// the request's method, version and headers, and nothing else.
pub open spec fn error_entry_of(
    id: u64,
    started_at_nanos: u64,
    duration_nanos: u64,
    process_id: Option<u32>,
    req: RequestView,
    error: Seq<char>,
) -> TrafficEntryView {
    let t = target_of(req, None);
    TrafficEntryView {
        id,
        started_at_nanos,
        duration_nanos,
        process_id,
        scheme: match t { Ok(t) => t.scheme, Err(_) => "http"@ },
        host: match t { Ok(t) => t.host, Err(_) => Seq::empty() },
        port: match t { Ok(t) => t.port, Err(_) => 0 },
        method: req.method,
        path: match t { Ok(t) => t.path, Err(_) => req.path },
        http_version: req.version,
        request_headers: req.headers,
        request_body: CapturedBody::empty_view(),
        response_status: None,
        response_headers: Seq::empty(),
        response_body: CapturedBody::empty_view(),
        request_size: 0,
        response_size: 0,
        tls: None,
        error: Some(error),
    }
}

/// The entry recorded for an exchange that failed with `error`.
pub fn error_entry(
    id: u64,
    started_at_nanos: u64,
    duration_nanos: u64,
    process_id: Option<u32>,
    request: &ParsedRequest,
    error: String,
) -> (r: TrafficEntry)
    ensures
        r@ == error_entry_of(id, started_at_nanos, duration_nanos, process_id, request@, error@),
{
    let fallback = target_from_request(request, None);
    let (scheme, host, port, path) = match fallback {
        Ok(t) => (t.scheme, t.host, t.port, t.path),
        Err(_) => (text::to_owned("http"), String::new(), 0u16, request.path.clone()),
    };
    let r = TrafficEntry {
        id,
        started_at_nanos,
        duration_nanos,
        process_id,
        scheme,
        host,
        port,
        method: request.method.clone(),
        path,
        http_version: request.version.clone(),
        request_headers: copy_headers(&request.headers),
        request_body: CapturedBody::empty(),
        response_status: None,
        response_headers: Vec::new(),
        response_body: CapturedBody::empty(),
        request_size: 0,
        response_size: 0,
        tls: None,
        error: Some(error),
    };
    proof {
        assert(r@.host == error_entry_of(id, started_at_nanos, duration_nanos, process_id, request@, error@).host);
        assert(r@.response_headers =~= Seq::<(Seq<char>, Seq<char>)>::empty());
    }
    r
}

/// The model of optional TLS details.
pub open spec fn tls_view(t: Option<TlsInformation>) -> Option<TlsInformationView> {
    match t {
        Some(t) => Some(t@),
        None => None,
    }
}

/// The entry recorded for a completed exchange.
pub open spec fn completed_entry_of(
    ctx: ExchangeContext,
    duration_nanos: u64,
    sent: SentRequest,
    response: ResponseView,
    response_body: CapturedBodyView,
    request_size: u64,
    response_size: u64,
    error: Option<Seq<char>>,
) -> TrafficEntryView {
    TrafficEntryView {
        id: ctx.id,
        started_at_nanos: ctx.started_at_nanos,
        duration_nanos,
        process_id: ctx.process_id,
        scheme: sent.target@.scheme,
        host: sent.target@.host,
        port: sent.target@.port,
        method: ctx.request@.method,
        path: sent.target@.path,
        http_version: ctx.request@.version,
        request_headers: ctx.request@.headers,
        request_body: sent.request_body@,
        response_status: Some(response.status),
        response_headers: response.headers,
        response_body,
        request_size,
        response_size,
        tls: tls_view(sent.tls),
        error,
    }
}

/// The sizes that the caller reports fit with the sizes already counted.
pub open spec fn exchange_sizes_fit(state: ExchangeState, event: ExchangeEvent) -> bool {
    match (state, event) {
        (
            ExchangeState::Tunneling { sent, response_head_len, early_response, .. },
            ExchangeEvent::TunnelClosed { result: Ok((from_client, from_upstream)) },
        ) => sent.head_len + sent.request_body_size + from_client <= u64::MAX && response_head_len
            + crate::capture::model::sat_add(early_response, from_upstream as int) <= u64::MAX,
        (ExchangeState::Tunneling { sent, response_head_len, early_response, .. }, ExchangeEvent::TunnelClosed { .. }) =>
            sent.head_len + sent.request_body_size <= u64::MAX && response_head_len + early_response <= u64::MAX,
        (ExchangeState::Streaming { sent, response_head_len, .. }, ExchangeEvent::BodyForwarded { size, .. }) =>
            sent.head_len + sent.request_body_size <= u64::MAX && response_head_len + size <= u64::MAX,
        _ => true,
    }
}

/// One step of an exchange: what follows `event` in `state`, and what the caller
/// does next.
///
/// - At the start, a chunked request body is refused with 501 (and recorded with
///   that status); otherwise the target is worked out (an error answers 502) and the
///   caller connects, over TLS for an intercepted connection.
/// - Once connected, the request head goes upstream, rewritten for a WebSocket
///   upgrade when the request asks for one; bytes that came with an upgrade request
///   without a body go as they are.
/// - A missing or unreadable response head answers 502. A 101 that accepts a
///   requested upgrade is tunnelled; anything else has its body forwarded.
/// - Any failure the caller reports answers 502 `Bad Gateway` with the error and
///   records it; a failure to answer the chunked refusal is answered the same way.
#[verifier::rlimit(50)]
pub fn exchange_step(ctx: &ExchangeContext, state: ExchangeState, event: ExchangeEvent, elapsed_nanos: u64) -> (r: (ExchangeState, ExchangeAction))
    requires
        exchange_sizes_fit(state, event),
    ensures
        match (state, event) {
            (ExchangeState::Start, ExchangeEvent::Begin) =>
                if lists_token(ctx.request@.transfer_encoding, "chunked"@) {
                    &&& r.0 matches ExchangeState::Failing { error, status: s1, answer_failure }
                        && error@ == chunked_error() && s1 == Some(501u16) && answer_failure
                    &&& r.1 matches ExchangeAction::Respond { status: s2, reason, body }
                        && s2 == 501 && reason@ == "Not Implemented"@ && body@ == chunked_reason()
                } else {
                    match exchange_target_of(ctx.request@, ctx.mode) {
                        Ok(t) => {
                            &&& r.0 matches ExchangeState::Connecting { target, websocket } && target@ == t
                                && websocket == (text::eq_ignore_case(ctx.request@.method, "GET"@) && asks_websocket(
                                ctx.request@.headers,
                            ))
                            &&& r.1 matches ExchangeAction::Connect { target: t2, tls } && t2@ == t && tls == (ctx.mode is TlsTo)
                        },
                        Err(e) => bad_gateway(r, e),
                    }
                },
            (ExchangeState::Connecting { target, websocket }, ExchangeEvent::Connected { tls }) => {
                let head = vstd::utf8::encode_utf8(upstream_head(ctx.request@, target@, websocket));
                let cl: u64 = match ctx.request@.content_length { Some(n) => n, None => 0 };
                let early = websocket && cl == 0 && ctx.initial_body_len > 0;
                &&& r.0 matches ExchangeState::Sending { target: t2, websocket: w2, early: e2, tls: tls2, head_len }
                    && t2@ == target@ && w2 == websocket && e2 == early && tls_view(tls2) == tls_view(tls)
                    && head_len == head.len()
                &&& r.1 matches ExchangeAction::SendRequest { head: h, early_websocket, content_length }
                    && h@ == head && early_websocket == early && content_length == cl
            },
            (ExchangeState::Sending { target, websocket, early, tls, head_len }, ExchangeEvent::RequestSent { body, size }) => {
                &&& r.0 matches ExchangeState::AwaitingHead { sent, websocket: w2 }
                    && w2 == websocket && sent.target@ == target@ && tls_view(sent.tls) == tls_view(tls)
                    && sent.head_len == head_len
                    && sent.request_body@ == (if early { CapturedBody::empty_view() } else { body@ })
                    && sent.request_body_size == (if early { ctx.initial_body_len } else { size })
                &&& r.1 is ReadResponseHead
            },
            (ExchangeState::AwaitingHead { sent, websocket }, ExchangeEvent::HeadRead { head }) => match head {
                None => bad_gateway(r, "upstream closed without an HTTP response"@),
                Some((h, initial)) => match response_of(h@) {
                    Err(e) => bad_gateway(r, e),
                    Ok(resp) => if websocket && resp.status == 101 && asks_websocket(resp.headers) {
                        &&& r.0 matches ExchangeState::Tunneling { sent: s2, response, response_head_len, early_response }
                            && s2 == sent && response@ == resp && response_head_len == h@.len()
                            && early_response == initial@.len()
                        &&& r.1 matches ExchangeAction::Tunnel { head: h2, early } && h2@ == h@ && early@ == initial@
                    } else {
                        &&& r.0 matches ExchangeState::Streaming { sent: s2, response, response_head_len }
                            && s2 == sent && response@ == resp && response_head_len == h@.len()
                        &&& r.1 matches ExchangeAction::ForwardBody {
                            head: h2,
                            initial: i2,
                            content_length,
                            content_type,
                            content_encoding,
                            transfer_encoding,
                        } && h2@ == h@ && i2@ == initial@ && content_length == resp.content_length
                            && opt_view(content_type) == resp.content_type
                            && opt_view(content_encoding) == resp.content_encoding
                            && opt_view(transfer_encoding) == resp.transfer_encoding
                    },
                },
            },
            (
                ExchangeState::Tunneling { sent, response, response_head_len, early_response },
                ExchangeEvent::TunnelClosed { result },
            ) => {
                let (from_client, to_client, error): (u64, u64, Option<Seq<char>>) = match result {
                    Ok((c, u)) => (c, crate::capture::model::sat_add(early_response, u as int), None),
                    Err(e) => (0, early_response, Some("WebSocket tunnel failed: "@ + e@)),
                };
                &&& r.0 is Finished
                &&& r.1 matches ExchangeAction::Record { entry } && entry@ == completed_entry_of(
                    *ctx,
                    elapsed_nanos,
                    sent,
                    response@,
                    CapturedBody::empty_view(),
                    (sent.head_len + sent.request_body_size + from_client) as u64,
                    (response_head_len + to_client) as u64,
                    error,
                )
            },
            (ExchangeState::Streaming { sent, response, response_head_len }, ExchangeEvent::BodyForwarded { body, size }) => {
                &&& r.0 is Finished
                &&& r.1 matches ExchangeAction::Record { entry } && entry@ == completed_entry_of(
                    *ctx,
                    elapsed_nanos,
                    sent,
                    response@,
                    body@,
                    (sent.head_len + sent.request_body_size) as u64,
                    (response_head_len + size) as u64,
                    None,
                )
            },
            (ExchangeState::Failing { error, status, answer_failure }, ExchangeEvent::Failed { error: e2 }) =>
                if answer_failure {
                    bad_gateway(r, e2@)
                } else {
                    failure_recorded(*ctx, elapsed_nanos, error@, status, r)
                },
            (ExchangeState::Failing { error, status, .. }, ExchangeEvent::Responded) =>
                failure_recorded(*ctx, elapsed_nanos, error@, status, r),
            (ExchangeState::Failing { .. }, _) => r.0 is Failing && r.1 is Idle,
            (ExchangeState::Start, _) => r.0 is Start && r.1 is Idle,
            (ExchangeState::Finished, _) => r.0 is Finished && r.1 is Idle,
            (_, ExchangeEvent::Failed { error }) => bad_gateway(r, error@),
            (s, _) => r.1 is Idle && r.0 == s,
        },
{
    match (state, event) {
        (ExchangeState::Start, ExchangeEvent::Begin) => {
            if has_chunked_transfer(&ctx.request.transfer_encoding) {
                (
                    ExchangeState::Failing {
                        error: text::to_owned("unsupported HTTP feature: chunked request body"),
                        status: Some(501),
                        answer_failure: true,
                    },
                    ExchangeAction::Respond {
                        status: 501,
                        reason: text::to_owned("Not Implemented"),
                        body: text::to_owned("chunked request bodies are not supported by this HTTP/1.1 MVP"),
                    },
                )
            } else {
                match exchange_target(&ctx.request, &ctx.mode) {
                    Ok(target) => {
                        let websocket = is_websocket_upgrade_request(&ctx.request);
                        let tls = match ctx.mode {
                            ExchangeMode::TlsTo { .. } => true,
                            ExchangeMode::PlainFromRequest => false,
                        };
                        let action_target = copy_target(&target);
                        (ExchangeState::Connecting { target, websocket }, ExchangeAction::Connect { target: action_target, tls })
                    },
                    Err(e) => answer_bad_gateway(e),
                }
            }
        },
        (ExchangeState::Connecting { target, websocket }, ExchangeEvent::Connected { tls }) => {
            let head = if websocket {
                build_upstream_upgrade_header(&ctx.request, &target)
            } else {
                build_upstream_header(&ctx.request, &target)
            };
            let content_length: u64 = match ctx.request.content_length {
                Some(n) => n,
                None => 0,
            };
            let early = websocket && content_length == 0 && ctx.initial_body_len > 0;
            let head_len = head.len() as u64;
            (
                ExchangeState::Sending { target, websocket, early, tls, head_len },
                ExchangeAction::SendRequest { head, early_websocket: early, content_length },
            )
        },
        (ExchangeState::Sending { target, websocket, early, tls, head_len }, ExchangeEvent::RequestSent { body, size }) => {
            let (request_body, request_body_size) = if early {
                (CapturedBody::empty(), ctx.initial_body_len)
            } else {
                (body, size)
            };
            let sent = SentRequest { target, tls, head_len, request_body, request_body_size };
            (ExchangeState::AwaitingHead { sent, websocket }, ExchangeAction::ReadResponseHead)
        },
        (ExchangeState::AwaitingHead { sent, websocket }, ExchangeEvent::HeadRead { head }) => {
            match head {
                None => answer_bad_gateway(text::to_owned("upstream closed without an HTTP response")),
                Some((h, initial)) => {
                    match parse_response(h.as_slice()) {
                        Err(e) => answer_bad_gateway(e),
                        Ok(response) => {
                            let response_head_len = h.len() as u64;
                            if websocket && is_websocket_upgrade_response(&response) {
                                let early_response = initial.len() as u64;
                                (
                                    ExchangeState::Tunneling { sent, response, response_head_len, early_response },
                                    ExchangeAction::Tunnel { head: h, early: initial },
                                )
                            } else {
                                let content_length = response.content_length;
                                let content_type = copy_opt_string(&response.content_type);
                                let content_encoding = copy_opt_string(&response.content_encoding);
                                let transfer_encoding = copy_opt_string(&response.transfer_encoding);
                                (
                                    ExchangeState::Streaming { sent, response, response_head_len },
                                    ExchangeAction::ForwardBody {
                                        head: h,
                                        initial,
                                        content_length,
                                        content_type,
                                        content_encoding,
                                        transfer_encoding,
                                    },
                                )
                            }
                        },
                    }
                },
            }
        },
        (
            ExchangeState::Tunneling { sent, response, response_head_len, early_response },
            ExchangeEvent::TunnelClosed { result },
        ) => {
            let (from_client, to_client, error) = match result {
                Ok((c, u)) => (c, early_response.saturating_add(u), None),
                Err(e) => {
                    let mut m = text::to_owned("WebSocket tunnel failed: ");
                    text::push_str(&mut m, e.as_str());
                    (0u64, early_response, Some(m))
                },
            };
            let request_size = sent.head_len + sent.request_body_size + from_client;
            let response_size = response_head_len + to_client;
            let entry = completed_entry(ctx, elapsed_nanos, sent, response, CapturedBody::empty(), request_size, response_size, error);
            (ExchangeState::Finished, ExchangeAction::Record { entry })
        },
        (ExchangeState::Streaming { sent, response, response_head_len }, ExchangeEvent::BodyForwarded { body, size }) => {
            let request_size = sent.head_len + sent.request_body_size;
            let response_size = response_head_len + size;
            let entry = completed_entry(ctx, elapsed_nanos, sent, response, body, request_size, response_size, None);
            (ExchangeState::Finished, ExchangeAction::Record { entry })
        },
        (ExchangeState::Failing { error, status, answer_failure }, ExchangeEvent::Failed { error: e2 }) => {
            if answer_failure {
                answer_bad_gateway(e2)
            } else {
                record_failure(ctx, elapsed_nanos, error, status)
            }
        },
        (ExchangeState::Failing { error, status, .. }, ExchangeEvent::Responded) => {
            record_failure(ctx, elapsed_nanos, error, status)
        },
        (ExchangeState::Failing { error, status, answer_failure }, _) => {
            (ExchangeState::Failing { error, status, answer_failure }, ExchangeAction::Idle)
        },
        (ExchangeState::Start, _) => (ExchangeState::Start, ExchangeAction::Idle),
        (ExchangeState::Finished, _) => (ExchangeState::Finished, ExchangeAction::Idle),
        (_, ExchangeEvent::Failed { error }) => answer_bad_gateway(error),
        (s, _) => (s, ExchangeAction::Idle),
    }
}

/// The exchange answers 502 `Bad Gateway` with `error`, which it records next.
pub open spec fn bad_gateway(r: (ExchangeState, ExchangeAction), error: Seq<char>) -> bool {
    &&& r.0 matches ExchangeState::Failing { error: e, status: s1, answer_failure } && e@ == error && s1 is None
        && !answer_failure
    &&& r.1 matches ExchangeAction::Respond { status: s2, reason, body } && s2 == 502 && reason@ == "Bad Gateway"@
        && body@ == error
}

/// The exchange records the failure `error`, with `status` as the response status.
pub open spec fn failure_recorded(
    ctx: ExchangeContext,
    elapsed_nanos: u64,
    error: Seq<char>,
    status: Option<u16>,
    r: (ExchangeState, ExchangeAction),
) -> bool {
    &&& r.0 is Finished
    &&& r.1 matches ExchangeAction::Record { entry } && entry@ == (TrafficEntryView {
        response_status: status,
        ..error_entry_of(ctx.id, ctx.started_at_nanos, elapsed_nanos, ctx.process_id, ctx.request@, error)
    })
}

fn answer_bad_gateway(error: String) -> (r: (ExchangeState, ExchangeAction))
    ensures
        bad_gateway(r, error@),
{
    let body = error.clone();
    (
        ExchangeState::Failing { error, status: None, answer_failure: false },
        ExchangeAction::Respond { status: 502, reason: text::to_owned("Bad Gateway"), body },
    )
}

fn record_failure(ctx: &ExchangeContext, elapsed_nanos: u64, error: String, status: Option<u16>) -> (r: (
    ExchangeState,
    ExchangeAction,
))
    ensures
        failure_recorded(*ctx, elapsed_nanos, error@, status, r),
{
    let mut entry = error_entry(ctx.id, ctx.started_at_nanos, elapsed_nanos, ctx.process_id, &ctx.request, error);
    entry.response_status = status;
    (ExchangeState::Finished, ExchangeAction::Record { entry })
}

fn copy_target(t: &UpstreamTarget) -> (r: UpstreamTarget)
    ensures
        r@ == t@,
{
    UpstreamTarget { scheme: t.scheme.clone(), host: t.host.clone(), port: t.port, path: t.path.clone() }
}

fn completed_entry(
    ctx: &ExchangeContext,
    elapsed_nanos: u64,
    sent: SentRequest,
    response: ParsedResponse,
    response_body: CapturedBody,
    request_size: u64,
    response_size: u64,
    error: Option<String>,
) -> (r: TrafficEntry)
    ensures
        r@ == completed_entry_of(
            *ctx,
            elapsed_nanos,
            sent,
            response@,
            response_body@,
            request_size,
            response_size,
            opt_view(error),
        ),
{
    let entry = TrafficEntry {
        id: ctx.id,
        started_at_nanos: ctx.started_at_nanos,
        duration_nanos: elapsed_nanos,
        process_id: ctx.process_id,
        scheme: sent.target.scheme,
        host: sent.target.host,
        port: sent.target.port,
        method: ctx.request.method.clone(),
        path: sent.target.path,
        http_version: ctx.request.version.clone(),
        request_headers: copy_headers(&ctx.request.headers),
        request_body: sent.request_body,
        response_status: Some(response.status),
        response_headers: response.headers,
        response_body,
        request_size,
        response_size,
        tls: sent.tls,
        error,
    };
    entry
}

} // verus!
