//! CONNECT requests: the target they name and the entry recorded for a tunnel.

use crate::capture::model::{CapturedBody, TrafficEntry, TrafficEntryView};
use crate::proxy::upstream::{parse_connect_authority, split_host_port_of};
use crate::text;
use vstd::prelude::*;

verus! {

/// The host and port a CONNECT request asks for.
#[derive(Debug, Clone, PartialEq, Eq)]
pub struct ConnectTarget {
    pub host: String,
    pub port: u16,
}

impl ConnectTarget {
    /// Reads `host[:port]`; the port defaults to 443.
    pub fn parse(authority: &str) -> (r: Result<Self, String>)
        ensures
            match split_host_port_of(authority@, 443) {
                Ok((h, p)) => r matches Ok(t) && t.host@ == h && t.port == p,
                Err(e) => r matches Err(m) && m@ == e,
            },
    {
        let (host, port) = parse_connect_authority(authority)?;
        Ok(ConnectTarget { host, port })
    }
}

/// The model of the entry recorded for a CONNECT tunnel.
pub open spec fn connect_entry_of(
    id: u64,
    started_at_nanos: u64,
    duration_nanos: u64,
    process_id: Option<u32>,
    host: Seq<char>,
    port: u16,
    response_status: Option<u16>,
    bytes: (u64, u64),
    error: Option<Seq<char>>,
) -> TrafficEntryView {
    TrafficEntryView {
        id,
        started_at_nanos,
        duration_nanos,
        process_id,
        scheme: "https"@,
        host,
        port,
        method: "CONNECT"@,
        path: host + ":"@ + text::decimal(port as nat),
        http_version: "HTTP/1.1"@,
        request_headers: Seq::empty(),
        request_body: CapturedBody::empty_view(),
        response_status,
        response_headers: Seq::empty(),
        response_body: CapturedBody::empty_view(),
        request_size: bytes.0,
        response_size: bytes.1,
        tls: None,
        error,
    }
}

/// The entry recorded for a CONNECT tunnel: an `https` exchange with method
/// `CONNECT`, path `host:port`, no headers or bodies, and the bytes that went each
/// way as its sizes.
pub fn connect_entry(
    id: u64,
    started_at_nanos: u64,
    duration_nanos: u64,
    process_id: Option<u32>,
    target: &ConnectTarget,
    response_status: Option<u16>,
    bytes: (u64, u64),
    error: Option<String>,
) -> (r: TrafficEntry)
    ensures
        r.id == id,
        r.started_at_nanos == started_at_nanos,
        r.duration_nanos == duration_nanos,
        r.process_id == process_id,
        r.scheme@ == "https"@,
        r.host@ == target.host@,
        r.port == target.port,
        r.method@ == "CONNECT"@,
        r.path@ == target.host@ + ":"@ + text::decimal(target.port as nat),
        r.http_version@ == "HTTP/1.1"@,
        r.request_headers@.len() == 0,
        r.request_body@ == CapturedBody::empty_view(),
        r.response_status == response_status,
        r.response_headers@.len() == 0,
        r.response_body@ == CapturedBody::empty_view(),
        r.request_size == bytes.0,
        r.response_size == bytes.1,
        r.tls is None,
        r.error == error,
        r@ == connect_entry_of(
            id,
            started_at_nanos,
            duration_nanos,
            process_id,
            target.host@,
            target.port,
            response_status,
            bytes,
            crate::capture::model::opt_view(error),
        ),
{
    let mut path = target.host.clone();
    text::push_str(&mut path, ":");
    text::push_decimal(&mut path, target.port as u64);
    let r = TrafficEntry {
        id,
        started_at_nanos,
        duration_nanos,
        process_id,
        scheme: text::to_owned("https"),
        host: target.host.clone(),
        port: target.port,
        method: text::to_owned("CONNECT"),
        path,
        http_version: text::to_owned("HTTP/1.1"),
        request_headers: Vec::new(),
        request_body: CapturedBody::empty(),
        response_status,
        response_headers: Vec::new(),
        response_body: CapturedBody::empty(),
        request_size: bytes.0,
        response_size: bytes.1,
        tls: None,
        error,
    };
    assert(r@.request_headers =~= Seq::<(Seq<char>, Seq<char>)>::empty());
    assert(r@.response_headers =~= Seq::<(Seq<char>, Seq<char>)>::empty());
    r
}

/// Copies a CONNECT target.
pub fn copy_connect_target(t: &ConnectTarget) -> (r: ConnectTarget)
    ensures
        r.host@ == t.host@,
        r.port == t.port,
{
    ConnectTarget { host: t.host.clone(), port: t.port }
}

} // verus!
