//! One proxy client connection, as a state machine: its first request head, and
//! for CONNECT either a blind tunnel or an inspected TLS connection.
//!
//! The caller does the socket and TLS work and reports what happened;
//! `client_step` decides what comes next and which entry is recorded.

use crate::capture::model::TrafficEntry;
use crate::proxy::connect::{connect_entry, connect_entry_of, ConnectTarget};
use crate::proxy::exchange::ExchangeMode;
use crate::proxy::http::{parse_request, request_of, ParsedRequest};
use crate::proxy::upstream::split_host_port_of;
use crate::text;
use vstd::prelude::*;

verus! {

/// What a client connection knows from its start.
#[derive(Debug)]
pub struct ClientContext {
    pub id: u64,
    pub started_at_nanos: u64,
    pub process_id: Option<u32>,
    /// Whether HTTPS is decrypted.
    pub tls_decryption: bool,
    /// Whether a local CA is at hand to sign leaf certificates.
    pub authority_available: bool,
}

/// What is recorded once a simple response has been written.
#[derive(Debug)]
pub enum AfterAnswer {
    Close,
    Record { target: ConnectTarget, error: String },
}

/// Where a client connection stands.
#[derive(Debug)]
pub enum ClientState {
    Start,
    /// The caller connects to the CONNECT target.
    TunnelConnecting { target: ConnectTarget },
    /// The caller acknowledges the CONNECT.
    TunnelAcknowledging { target: ConnectTarget },
    /// The caller copies bytes both ways.
    TunnelCopying { target: ConnectTarget },
    /// The caller asks the local CA for a leaf certificate.
    MakingLeaf { target: ConnectTarget },
    /// The caller acknowledges the CONNECT and accepts TLS from the client.
    AcceptingTls { target: ConnectTarget },
    /// The caller reads a request head inside the decrypted connection.
    ReadingRequest { target: ConnectTarget },
    /// The caller writes a simple response; `strict` when a failure to write it ends
    /// the connection with that error.
    Answering { then: AfterAnswer, strict: bool },
    Done,
}

/// How reading the request head inside a decrypted connection went.
#[derive(Debug)]
pub enum InnerHead {
    Read { head: Vec<u8>, initial: Vec<u8> },
    /// The client closed the connection before a head.
    Closed,
    /// The client went away (reset, abort, broken pipe, early end of stream).
    Disconnected { error: String },
    Failed { error: String },
}

/// What the caller reports.
#[derive(Debug)]
pub enum ClientEvent {
    /// The first request head, or `None` when the client closed first.
    HeadRead { head: Option<(Vec<u8>, Vec<u8>)> },
    UpstreamConnected,
    UpstreamFailed { error: String },
    Acknowledged,
    AcknowledgeFailed { error: String },
    TunnelClosed { result: Result<(u64, u64), String> },
    LeafReady,
    LeafFailed { error: String },
    TlsAccepted { alpn_h2: bool },
    TlsFailed { error: String },
    InnerHeadRead { result: InnerHead },
    Responded,
    RespondFailed { error: String },
}

/// What the caller does next.
#[derive(Debug)]
pub enum ClientAction {
    /// Close the connection; nothing more is recorded.
    Close,
    /// End the connection with this error.
    Fail { error: String },
    Respond { status: u16, reason: String, body: String },
    /// Run one exchange for the request (see `exchange_step`).
    Exchange { request: ParsedRequest, initial_body: Vec<u8>, mode: ExchangeMode },
    ConnectUpstream { host: String, port: u16 },
    Acknowledge,
    CopyBoth,
    MakeLeaf { host: String },
    AcceptTls,
    /// Serve the decrypted connection as HTTP/2.
    ServeH2 { target: ConnectTarget },
    ReadInnerHead,
    Record { entry: TrafficEntry },
    /// The event does not belong to this state: nothing to do.
    Idle,
}

/// The text of a CA that cannot be used.
pub open spec fn no_ca_text() -> Seq<char> {
    "local CA is not available for HTTPS inspection"@
}

/// The error recorded when the client closes a decrypted connection without a request.
pub open spec fn closed_early_text() -> Seq<char> {
    "client closed inspected TLS tunnel before sending an HTTP request"@
}

/// The entry recorded for a CONNECT to `target` with `status` and `error`, no bytes.
pub open spec fn connect_failure_of(
    ctx: ClientContext,
    elapsed_nanos: u64,
    target: ConnectTarget,
    status: u16,
    error: Seq<char>,
) -> crate::capture::model::TrafficEntryView {
    connect_entry_of(
        ctx.id,
        ctx.started_at_nanos,
        elapsed_nanos,
        ctx.process_id,
        target.host@,
        target.port,
        Some(status),
        (0, 0),
        Some(error),
    )
}

/// The caller writes the simple response `status reason` with `body`.
pub open spec fn answers(a: ClientAction, status: u16, reason: Seq<char>, body: Seq<char>) -> bool {
    a matches ClientAction::Respond { status: s, reason: r, body: b } && s == status && r@ == reason && b@ == body
}

/// After the response, the connection is closed.
pub open spec fn then_close(s: ClientState, strict: bool) -> bool {
    s matches ClientState::Answering { then, strict: st } && then is Close && st == strict
}

/// After the response, `error` is recorded for `target`.
pub open spec fn then_record(s: ClientState, target: ConnectTarget, error: Seq<char>, strict: bool) -> bool {
    s matches ClientState::Answering { then, strict: st } && st == strict && (then matches AfterAnswer::Record {
        target: t,
        error: e,
    } && t.host@ == target.host@ && t.port == target.port && e@ == error)
}

/// The caller's next state names the same target.
pub open spec fn same_target(a: ConnectTarget, b: ConnectTarget) -> bool {
    a.host@ == b.host@ && a.port == b.port
}

/// The connection records `entry_view` and is done.
pub open spec fn records(r: (ClientState, ClientAction), entry_view: crate::capture::model::TrafficEntryView) -> bool {
    r.0 is Done && (r.1 matches ClientAction::Record { entry } && entry@ == entry_view)
}

/// One step of a client connection.
///
/// - A request head that does not parse is answered 400 `Bad Request`; a request
///   other than CONNECT runs as a plain exchange.
/// - A CONNECT target that does not parse is answered 400 `Bad CONNECT`. Without
///   decryption the caller tunnels: a failed upstream connection is answered 502
///   and recorded, a failed acknowledgement is recorded with 502, and the tunnel
///   is recorded with 200 and the bytes each way (or its error).
/// - With decryption but no CA, the CONNECT is answered 502 and recorded. A leaf
///   that cannot be made is answered 502 `CA Error` and recorded; a TLS handshake
///   that fails is recorded with 502. HTTP/2 is handed over; otherwise the request
///   inside is read: a client that leaves first is recorded with 200 and the
///   reason, a head that does not parse is answered 400, and a request runs as an
///   exchange to the CONNECT target.
#[verifier::rlimit(50)]
pub fn client_step(ctx: &ClientContext, state: ClientState, event: ClientEvent, elapsed_nanos: u64) -> (r: (
    ClientState,
    ClientAction,
))
    ensures
        match (state, event) {
            (ClientState::Start, ClientEvent::HeadRead { head }) => match head {
                None => r.0 is Done && r.1 is Close,
                Some((h, initial)) => match request_of(h@) {
                    Err(e) => then_close(r.0, true) && answers(r.1, 400, "Bad Request"@, e),
                    Ok(req) => if text::eq_ignore_case(req.method, "CONNECT"@) {
                        match split_host_port_of(req.path, 443) {
                            Err(e) => then_close(r.0, true) && answers(r.1, 400, "Bad CONNECT"@, e),
                            Ok((host, port)) => if !ctx.tls_decryption {
                                &&& r.0 matches ClientState::TunnelConnecting { target } && target.host@ == host
                                    && target.port == port
                                &&& r.1 matches ClientAction::ConnectUpstream { host: h2, port: p2 } && h2@ == host
                                    && p2 == port
                            } else if !ctx.authority_available {
                                &&& r.0 matches ClientState::Answering { then, strict } && strict
                                    && (then matches AfterAnswer::Record { target, error } && target.host@ == host
                                    && target.port == port && error@ == no_ca_text())
                                &&& answers(r.1, 502, "TLS Inspection Disabled"@, no_ca_text())
                            } else {
                                &&& r.0 matches ClientState::MakingLeaf { target } && target.host@ == host
                                    && target.port == port
                                &&& r.1 matches ClientAction::MakeLeaf { host: h2 } && h2@ == host
                            },
                        }
                    } else {
                        &&& r.0 is Done
                        &&& r.1 matches ClientAction::Exchange { request, initial_body, mode } && request@ == req
                            && initial_body@ == initial@ && mode is PlainFromRequest
                    },
                },
            },
            (ClientState::TunnelConnecting { target }, ClientEvent::UpstreamConnected) =>
                (r.0 matches ClientState::TunnelAcknowledging { target: t } && same_target(t, target))
                && r.1 is Acknowledge,
            (ClientState::TunnelConnecting { target }, ClientEvent::UpstreamFailed { error }) =>
                then_record(r.0, target, "cannot connect upstream: "@ + error@, false)
                && answers(r.1, 502, "Bad Gateway"@, error@),
            (ClientState::TunnelAcknowledging { target }, ClientEvent::Acknowledged) =>
                (r.0 matches ClientState::TunnelCopying { target: t } && same_target(t, target)) && r.1 is CopyBoth,
            (ClientState::TunnelAcknowledging { target }, ClientEvent::AcknowledgeFailed { error }) =>
                records(r, connect_failure_of(*ctx, elapsed_nanos, target, 502, "cannot acknowledge CONNECT: "@ + error@)),
            (ClientState::TunnelCopying { target }, ClientEvent::TunnelClosed { result }) => match result {
                Ok((from_client, from_upstream)) => records(
                    r,
                    connect_entry_of(
                        ctx.id,
                        ctx.started_at_nanos,
                        elapsed_nanos,
                        ctx.process_id,
                        target.host@,
                        target.port,
                        Some(200u16),
                        (from_client, from_upstream),
                        None,
                    ),
                ),
                Err(e) => records(r, connect_failure_of(*ctx, elapsed_nanos, target, 200, "CONNECT tunnel failed: "@ + e@)),
            },
            (ClientState::MakingLeaf { target }, ClientEvent::LeafReady) =>
                (r.0 matches ClientState::AcceptingTls { target: t } && same_target(t, target)) && r.1 is AcceptTls,
            (ClientState::MakingLeaf { target }, ClientEvent::LeafFailed { error }) =>
                then_record(r.0, target, "cannot create local leaf certificate: "@ + error@, true)
                && answers(r.1, 502, "CA Error"@, error@),
            (ClientState::AcceptingTls { target }, ClientEvent::TlsFailed { error }) =>
                records(r, connect_failure_of(*ctx, elapsed_nanos, target, 502, error@)),
            (ClientState::AcceptingTls { target }, ClientEvent::TlsAccepted { alpn_h2 }) => if alpn_h2 {
                r.0 is Done && (r.1 matches ClientAction::ServeH2 { target: t } && same_target(t, target))
            } else {
                (r.0 matches ClientState::ReadingRequest { target: t } && same_target(t, target)) && r.1 is ReadInnerHead
            },
            (ClientState::ReadingRequest { target }, ClientEvent::InnerHeadRead { result }) => match result {
                InnerHead::Closed => records(r, connect_failure_of(*ctx, elapsed_nanos, target, 200, closed_early_text())),
                InnerHead::Disconnected { error } => records(
                    r,
                    connect_failure_of(*ctx, elapsed_nanos, target, 200, closed_early_text() + ": "@ + error@),
                ),
                InnerHead::Failed { error } => r.0 is Done && (r.1 matches ClientAction::Fail { error: e } && e@ == error@),
                InnerHead::Read { head, initial } => match request_of(head@) {
                    Err(e) => then_close(r.0, true) && answers(r.1, 400, "Bad Request"@, e),
                    Ok(req) => {
                        &&& r.0 is Done
                        &&& r.1 matches ClientAction::Exchange { request, initial_body, mode } && request@ == req
                            && initial_body@ == initial@ && (mode matches ExchangeMode::TlsTo { host, port }
                            && host@ == target.host@ && port == target.port)
                    },
                },
            },
            (ClientState::Answering { then, strict }, ClientEvent::RespondFailed { error }) if strict =>
                r.0 is Done && (r.1 matches ClientAction::Fail { error: e } && e@ == error@),
            (ClientState::Answering { then, .. }, ClientEvent::Responded)
            | (ClientState::Answering { then, .. }, ClientEvent::RespondFailed { .. }) => match then {
                AfterAnswer::Close => r.0 is Done && r.1 is Close,
                AfterAnswer::Record { target, error } => records(
                    r,
                    connect_failure_of(*ctx, elapsed_nanos, target, 502, error@),
                ),
            },
            (s, _) => r.0 == s && r.1 is Idle,
        },
{
    match (state, event) {
        (ClientState::Start, ClientEvent::HeadRead { head }) => {
            match head {
                None => (ClientState::Done, ClientAction::Close),
                Some((h, initial)) => {
                    match parse_request(h.as_slice()) {
                        Err(e) => answer(AfterAnswer::Close, true, 400, "Bad Request", e),
                        Ok(request) => {
                            if text::eq_ignore_case_str(request.method.as_str(), "CONNECT") {
                                match ConnectTarget::parse(request.path.as_str()) {
                                    Err(e) => answer(AfterAnswer::Close, true, 400, "Bad CONNECT", e),
                                    Ok(target) => {
                                        if !ctx.tls_decryption {
                                            let host = target.host.clone();
                                            let port = target.port;
                                            (ClientState::TunnelConnecting { target }, ClientAction::ConnectUpstream { host, port })
                                        } else if !ctx.authority_available {
                                            let error = text::to_owned("local CA is not available for HTTPS inspection");
                                            let body = text::to_owned("local CA is not available for HTTPS inspection");
                                            answer(AfterAnswer::Record { target, error }, true, 502, "TLS Inspection Disabled", body)
                                        } else {
                                            let host = target.host.clone();
                                            (ClientState::MakingLeaf { target }, ClientAction::MakeLeaf { host })
                                        }
                                    },
                                }
                            } else {
                                (
                                    ClientState::Done,
                                    ClientAction::Exchange {
                                        request,
                                        initial_body: initial,
                                        mode: ExchangeMode::PlainFromRequest,
                                    },
                                )
                            }
                        },
                    }
                },
            }
        },
        (ClientState::TunnelConnecting { target }, ClientEvent::UpstreamConnected) => {
            (ClientState::TunnelAcknowledging { target }, ClientAction::Acknowledge)
        },
        (ClientState::TunnelConnecting { target }, ClientEvent::UpstreamFailed { error }) => {
            let recorded = prefixed("cannot connect upstream: ", &error);
            answer(AfterAnswer::Record { target, error: recorded }, false, 502, "Bad Gateway", error)
        },
        (ClientState::TunnelAcknowledging { target }, ClientEvent::Acknowledged) => {
            (ClientState::TunnelCopying { target }, ClientAction::CopyBoth)
        },
        (ClientState::TunnelAcknowledging { target }, ClientEvent::AcknowledgeFailed { error }) => {
            let e = prefixed("cannot acknowledge CONNECT: ", &error);
            record_failure(ctx, elapsed_nanos, &target, 502, e)
        },
        (ClientState::TunnelCopying { target }, ClientEvent::TunnelClosed { result }) => {
            match result {
                Ok((from_client, from_upstream)) => {
                    let entry = connect_entry(
                        ctx.id,
                        ctx.started_at_nanos,
                        elapsed_nanos,
                        ctx.process_id,
                        &target,
                        Some(200),
                        (from_client, from_upstream),
                        None,
                    );
                    (ClientState::Done, ClientAction::Record { entry })
                },
                Err(e) => {
                    let m = prefixed("CONNECT tunnel failed: ", &e);
                    record_failure(ctx, elapsed_nanos, &target, 200, m)
                },
            }
        },
        (ClientState::MakingLeaf { target }, ClientEvent::LeafReady) => {
            (ClientState::AcceptingTls { target }, ClientAction::AcceptTls)
        },
        (ClientState::MakingLeaf { target }, ClientEvent::LeafFailed { error }) => {
            let recorded = prefixed("cannot create local leaf certificate: ", &error);
            answer(AfterAnswer::Record { target, error: recorded }, true, 502, "CA Error", error)
        },
        (ClientState::AcceptingTls { target }, ClientEvent::TlsFailed { error }) => {
            record_failure(ctx, elapsed_nanos, &target, 502, error)
        },
        (ClientState::AcceptingTls { target }, ClientEvent::TlsAccepted { alpn_h2 }) => {
            if alpn_h2 {
                (ClientState::Done, ClientAction::ServeH2 { target })
            } else {
                (ClientState::ReadingRequest { target }, ClientAction::ReadInnerHead)
            }
        },
        (ClientState::ReadingRequest { target }, ClientEvent::InnerHeadRead { result }) => {
            match result {
                InnerHead::Closed => {
                    let e = text::to_owned("client closed inspected TLS tunnel before sending an HTTP request");
                    record_failure(ctx, elapsed_nanos, &target, 200, e)
                },
                InnerHead::Disconnected { error } => {
                    let mut e = text::to_owned("client closed inspected TLS tunnel before sending an HTTP request");
                    text::push_str(&mut e, ": ");
                    text::push_str(&mut e, error.as_str());
                    record_failure(ctx, elapsed_nanos, &target, 200, e)
                },
                InnerHead::Failed { error } => (ClientState::Done, ClientAction::Fail { error }),
                InnerHead::Read { head, initial } => {
                    match parse_request(head.as_slice()) {
                        Err(e) => answer(AfterAnswer::Close, true, 400, "Bad Request", e),
                        Ok(request) => (
                            ClientState::Done,
                            ClientAction::Exchange {
                                request,
                                initial_body: initial,
                                mode: ExchangeMode::TlsTo { host: target.host, port: target.port },
                            },
                        ),
                    }
                },
            }
        },
        (ClientState::Answering { then, strict }, ClientEvent::RespondFailed { error }) if strict => {
            (ClientState::Done, ClientAction::Fail { error })
        },
        (ClientState::Answering { then, .. }, ClientEvent::Responded)
        | (ClientState::Answering { then, .. }, ClientEvent::RespondFailed { .. }) => {
            match then {
                AfterAnswer::Close => (ClientState::Done, ClientAction::Close),
                AfterAnswer::Record { target, error } => record_failure(ctx, elapsed_nanos, &target, 502, error),
            }
        },
        (s, _) => (s, ClientAction::Idle),
    }
}

fn prefixed(prefix: &str, s: &String) -> (r: String)
    ensures
        r@ == prefix@ + s@,
{
    let mut r = text::to_owned(prefix);
    text::push_str(&mut r, s.as_str());
    r
}

fn answer(then: AfterAnswer, strict: bool, status: u16, reason: &str, body: String) -> (r: (ClientState, ClientAction))
    ensures
        r.0 == (ClientState::Answering { then, strict }),
        answers(r.1, status, reason@, body@),
{
    (ClientState::Answering { then, strict }, ClientAction::Respond { status, reason: text::to_owned(reason), body })
}

fn record_failure(ctx: &ClientContext, elapsed_nanos: u64, target: &ConnectTarget, status: u16, error: String) -> (r: (
    ClientState,
    ClientAction,
))
    ensures
        records(r, connect_failure_of(*ctx, elapsed_nanos, *target, status, error@)),
{
    let entry = connect_entry(
        ctx.id,
        ctx.started_at_nanos,
        elapsed_nanos,
        ctx.process_id,
        target,
        Some(status),
        (0, 0),
        Some(error),
    );
    (ClientState::Done, ClientAction::Record { entry })
}

} // verus!
