//! HTTP/2 streams inside an inspected connection: which headers are forwarded,
//! what is captured of them, and the entry recorded for a stream.

use crate::capture::model::{
    headers_view, utf8_lossy, utf8_lossy_text, CapturedBody, CapturedBodyView, TlsInformation, TrafficEntry,
    TrafficEntryView,
};
use crate::proxy::connect::ConnectTarget;
use crate::text;
use vstd::prelude::*;

verus! {

/// The head of an HTTP/2 request as plain values: the method, the path and query
/// of its URI (when it has one), its authority, and its headers with lower-case
/// names and raw values, in order.
#[derive(Debug)]
pub struct H2Head {
    pub method: String,
    pub path_and_query: Option<String>,
    pub authority: Option<String>,
    pub headers: Vec<(String, Vec<u8>)>,
}

/// The head of an HTTP/2 response as plain values.
#[derive(Debug)]
pub struct H2ResponseHead {
    pub status: u16,
    pub headers: Vec<(String, Vec<u8>)>,
}

/// Whether a header passes between the two HTTP/2 connections: the
/// connection-specific ones stay behind.
pub open spec fn forwardable(name: Seq<char>) -> bool {
    !(name == "connection"@ || name == "keep-alive"@ || name == "proxy-connection"@ || name
        == "transfer-encoding"@ || name == "upgrade"@)
}

/// Whether a header passes between the two HTTP/2 connections.
pub fn forwardable_h2_header(name: &str) -> (r: bool)
    ensures
        r == forwardable(name@),
{
    !(text::str_eq(name, "connection") || text::str_eq(name, "keep-alive") || text::str_eq(name, "proxy-connection")
        || text::str_eq(name, "transfer-encoding") || text::str_eq(name, "upgrade"))
}

/// The model of raw headers.
pub open spec fn raw_headers_view(h: Seq<(String, Vec<u8>)>) -> Seq<(Seq<char>, Seq<u8>)> {
    h.map_values(|p: (String, Vec<u8>)| (p.0@, p.1@))
}

/// The first value of the header `name`, decoded with replacement characters.
pub open spec fn h2_header_of(hs: Seq<(Seq<char>, Seq<u8>)>, name: Seq<char>) -> Option<Seq<char>>
    decreases hs.len(),
{
    if hs.len() == 0 {
        None
    } else if hs[0].0 == name {
        Some(utf8_lossy(hs[0].1))
    } else {
        h2_header_of(hs.drop_first(), name)
    }
}

/// The first value of the header `name`, decoded with replacement characters.
pub fn h2_header_value(headers: &Vec<(String, Vec<u8>)>, name: &str) -> (r: Option<String>)
    ensures
        match h2_header_of(raw_headers_view(headers@), name@) {
            Some(v) => r matches Some(s) && s@ == v,
            None => r is None,
        },
{
    let ghost hs = raw_headers_view(headers@);
    let mut i: usize = 0;
    proof {
        assert(hs.skip(0) =~= hs);
    }
    while i < headers.len()
        invariant
            0 <= i <= headers@.len(),
            hs == raw_headers_view(headers@),
            h2_header_of(hs.skip(i as int), name@) == h2_header_of(hs, name@),
        decreases headers.len() - i,
    {
        proof {
            assert(hs.skip(i as int)[0] == (headers@[i as int].0@, headers@[i as int].1@));
            assert(hs.skip(i as int).drop_first() =~= hs.skip(i + 1));
        }
        if text::str_eq(headers[i].0.as_str(), name) {
            return Some(utf8_lossy_text(headers[i].1.as_slice()));
        }
        i = i + 1;
    }
    proof {
        assert(hs.skip(i as int).len() == 0);
    }
    None
}

/// The path of a request: its path and query, or `/`.
pub open spec fn h2_path_of(path_and_query: Option<Seq<char>>) -> Seq<char> {
    match path_and_query {
        Some(p) => p,
        None => "/"@,
    }
}

/// The path of a request: its path and query, or `/`.
pub fn h2_path(head: &H2Head) -> (r: String)
    ensures
        r@ == h2_path_of(crate::capture::model::opt_view(head.path_and_query)),
{
    match &head.path_and_query {
        Some(p) => p.clone(),
        None => text::to_owned("/"),
    }
}

/// The headers as captured: names as they are, values decoded with replacement
/// characters.
pub open spec fn captured_of(hs: Seq<(Seq<char>, Seq<u8>)>) -> Seq<(Seq<char>, Seq<char>)> {
    hs.map_values(|p: (Seq<char>, Seq<u8>)| (p.0, utf8_lossy(p.1)))
}

/// The headers as captured.
pub fn capture_h2_headers(headers: &Vec<(String, Vec<u8>)>) -> (r: Vec<(String, String)>)
    ensures
        headers_view(r@) == captured_of(raw_headers_view(headers@)),
{
    let mut r: Vec<(String, String)> = Vec::new();
    let mut i: usize = 0;
    while i < headers.len()
        invariant
            0 <= i <= headers@.len(),
            r@.len() == i,
            forall|j: int|
                0 <= j < i ==> r@[j].0@ == headers@[j].0@ && r@[j].1@ == utf8_lossy(headers@[j].1@),
        decreases headers.len() - i,
    {
        let name = headers[i].0.clone();
        let value = utf8_lossy_text(headers[i].1.as_slice());
        r.push((name, value));
        i = i + 1;
    }
    assert(headers_view(r@) =~= captured_of(raw_headers_view(headers@)));
    r
}

/// The request headers as captured: the pseudo-headers `:method`, `:scheme`
/// (always `https`), `:path` and, when the URI has one, `:authority`, then the
/// headers.
pub open spec fn captured_request_of(
    method: Seq<char>,
    path_and_query: Option<Seq<char>>,
    authority: Option<Seq<char>>,
    hs: Seq<(Seq<char>, Seq<u8>)>,
) -> Seq<(Seq<char>, Seq<char>)> {
    seq![(":method"@, method), (":scheme"@, "https"@), (":path"@, h2_path_of(path_and_query))] + match authority {
        Some(a) => seq![(":authority"@, a)],
        None => Seq::empty(),
    } + captured_of(hs)
}

/// The request headers as captured.
pub fn capture_h2_request_headers(head: &H2Head) -> (r: Vec<(String, String)>)
    ensures
        headers_view(r@) == captured_request_of(
            head.method@,
            crate::capture::model::opt_view(head.path_and_query),
            crate::capture::model::opt_view(head.authority),
            raw_headers_view(head.headers@),
        ),
{
    let mut r: Vec<(String, String)> = Vec::new();
    r.push((text::to_owned(":method"), head.method.clone()));
    r.push((text::to_owned(":scheme"), text::to_owned("https")));
    r.push((text::to_owned(":path"), h2_path(head)));
    match &head.authority {
        Some(a) => r.push((text::to_owned(":authority"), a.clone())),
        None => {},
    }
    let ghost front = headers_view(r@);
    let rest = capture_h2_headers(&head.headers);
    let mut i: usize = 0;
    let ghost n = r@.len();
    while i < rest.len()
        invariant
            0 <= i <= rest@.len(),
            r@.len() == n + i,
            headers_view(r@) == front + headers_view(rest@).take(i as int),
        decreases rest.len() - i,
    {
        let (a, b) = (rest[i].0.clone(), rest[i].1.clone());
        let ghost before = r@;
        r.push((a, b));
        proof {
            assert(headers_view(r@) =~= headers_view(before).push((rest@[i as int].0@, rest@[i as int].1@)));
            assert(headers_view(rest@).take(i + 1) =~= headers_view(rest@).take(i as int).push(
                (rest@[i as int].0@, rest@[i as int].1@),
            ));
            assert(headers_view(r@) =~= front + headers_view(rest@).take(i + 1));
        }
        i = i + 1;
    }
    proof {
        assert(headers_view(rest@).take(rest@.len() as int) =~= headers_view(rest@));
        assert(front =~= seq![(":method"@, head.method@), (":scheme"@, "https"@), (":path"@, h2_path_of(crate::capture::model::opt_view(head.path_and_query)))] + match crate::capture::model::opt_view(head.authority) {
            Some(a) => seq![(":authority"@, a)],
            None => Seq::<(Seq<char>, Seq<char>)>::empty(),
        });
    }
    r
}

/// The size counted for headers: for each, the bytes of its name and value and 4.
pub open spec fn approx_size_of(hs: Seq<(Seq<char>, Seq<char>)>) -> nat
    decreases hs.len(),
{
    if hs.len() == 0 {
        0
    } else {
        approx_size_of(hs.drop_last()) + text::byte_len(hs.last().0) + text::byte_len(hs.last().1) + 4
    }
}

/// The size counted for headers: for each, the bytes of its name and value and 4.
pub fn approx_headers_size(headers: &[(String, String)]) -> (r: u64)
    requires
        approx_size_of(headers_view(headers@)) <= u64::MAX,
    ensures
        r == approx_size_of(headers_view(headers@)),
{
    let ghost hs = headers_view(headers@);
    let mut total: u64 = 0;
    let mut i: usize = 0;
    proof {
        assert(hs.take(0) =~= Seq::<(Seq<char>, Seq<char>)>::empty());
    }
    while i < headers.len()
        invariant
            0 <= i <= headers@.len(),
            hs == headers_view(headers@),
            approx_size_of(hs) <= u64::MAX,
            total == approx_size_of(hs.take(i as int)),
        decreases headers.len() - i,
    {
        proof {
            assert(hs.take(i + 1).drop_last() =~= hs.take(i as int));
            assert(hs.take(i + 1).last() == (headers@[i as int].0@, headers@[i as int].1@));
            lemma_approx_size_prefix(hs, i + 1);
        }
        let n = text::str_len(headers[i].0.as_str()) as u64;
        let v = text::str_len(headers[i].1.as_str()) as u64;
        total = total + n + v + 4;
        i = i + 1;
    }
    proof {
        assert(hs.take(headers@.len() as int) =~= hs);
    }
    total
}

proof fn lemma_approx_size_prefix(hs: Seq<(Seq<char>, Seq<char>)>, k: int)
    requires
        0 <= k <= hs.len(),
    ensures
        approx_size_of(hs.take(k)) <= approx_size_of(hs),
    decreases hs.len() - k,
{
    if k < hs.len() {
        lemma_approx_size_prefix(hs, k + 1);
        assert(hs.take(k + 1).drop_last() =~= hs.take(k));
    } else {
        assert(hs.take(k) =~= hs);
    }
}

/// Whether the size counted for the headers fits in a `u64`.
pub fn headers_size_fits(headers: &[(String, String)]) -> (r: bool)
    ensures
        r == (approx_size_of(headers_view(headers@)) <= u64::MAX),
{
    let ghost hs = headers_view(headers@);
    let mut total: u64 = 0;
    let mut i: usize = 0;
    proof {
        assert(hs.take(0) =~= Seq::<(Seq<char>, Seq<char>)>::empty());
    }
    while i < headers.len()
        invariant
            0 <= i <= headers@.len(),
            hs == headers_view(headers@),
            total == approx_size_of(hs.take(i as int)),
        decreases headers.len() - i,
    {
        proof {
            assert(hs.take(i + 1).drop_last() =~= hs.take(i as int));
            assert(hs.take(i + 1).last() == (headers@[i as int].0@, headers@[i as int].1@));
        }
        let n = text::str_len(headers[i].0.as_str()) as u64;
        let v = text::str_len(headers[i].1.as_str()) as u64;
        let step = match n.checked_add(v) {
            Some(x) => x.checked_add(4),
            None => None,
        };
        let next = match step {
            Some(x) => total.checked_add(x),
            None => None,
        };
        match next {
            Some(t) => total = t,
            None => {
                proof {
                    lemma_approx_size_prefix(hs, i + 1);
                }
                return false;
            },
        }
        i = i + 1;
    }
    proof {
        assert(hs.take(headers@.len() as int) =~= hs);
    }
    true
}

/// Whether the sizes counted for a stream's request and response headers fit in a
/// `u64`, as recording the stream needs.
pub fn h2_sizes_fit(head: &H2Head, response: &H2ResponseHead) -> (r: bool)
    ensures
        r == (approx_size_of(
            captured_request_of(
                head.method@,
                crate::capture::model::opt_view(head.path_and_query),
                crate::capture::model::opt_view(head.authority),
                raw_headers_view(head.headers@),
            ),
        ) <= u64::MAX && approx_size_of(captured_of(raw_headers_view(response.headers@))) <= u64::MAX),
{
    let request = capture_h2_request_headers(head);
    let resp = capture_h2_headers(&response.headers);
    headers_size_fits(request.as_slice()) && headers_size_fits(resp.as_slice())
}

/// A body that has captured nothing yet, with the type and encoding its headers name.
pub fn h2_body_start(headers: &Vec<(String, Vec<u8>)>) -> (r: CapturedBody)
    ensures
        r@ == (CapturedBodyView {
            content_type: h2_header_of(raw_headers_view(headers@), "content-type"@),
            content_encoding: h2_header_of(raw_headers_view(headers@), "content-encoding"@),
            ..CapturedBody::empty_view()
        }),
{
    let mut body = CapturedBody::empty();
    body.content_type = h2_header_value(headers, "content-type");
    body.content_encoding = h2_header_value(headers, "content-encoding");
    body
}

/// The entry recorded for a completed HTTP/2 stream: `https` to the CONNECT
/// target, version `HTTP/2`, the captured headers and bodies, and as sizes the
/// headers' counted size plus the body bytes, saturating.
pub open spec fn h2_entry_of(
    id: u64,
    started_at_nanos: u64,
    duration_nanos: u64,
    process_id: Option<u32>,
    target: ConnectTarget,
    head: H2Head,
    response: H2ResponseHead,
    request_body: CapturedBodyView,
    request_body_size: u64,
    response_body: CapturedBodyView,
    response_body_size: u64,
    tls: crate::capture::model::TlsInformationView,
) -> TrafficEntryView {
    let req_headers = captured_request_of(
        head.method@,
        crate::capture::model::opt_view(head.path_and_query),
        crate::capture::model::opt_view(head.authority),
        raw_headers_view(head.headers@),
    );
    let resp_headers = captured_of(raw_headers_view(response.headers@));
    TrafficEntryView {
        id,
        started_at_nanos,
        duration_nanos,
        process_id,
        scheme: "https"@,
        host: target.host@,
        port: target.port,
        method: head.method@,
        path: h2_path_of(crate::capture::model::opt_view(head.path_and_query)),
        http_version: "HTTP/2"@,
        request_headers: req_headers,
        request_body,
        response_status: Some(response.status),
        response_headers: resp_headers,
        response_body,
        request_size: crate::capture::model::sat_add(request_body_size, approx_size_of(req_headers) as int),
        response_size: crate::capture::model::sat_add(response_body_size, approx_size_of(resp_headers) as int),
        tls: Some(tls),
        error: None,
    }
}

/// The entry recorded for a completed HTTP/2 stream.
pub fn h2_entry(
    id: u64,
    started_at_nanos: u64,
    duration_nanos: u64,
    process_id: Option<u32>,
    target: &ConnectTarget,
    head: &H2Head,
    response: &H2ResponseHead,
    request_body: CapturedBody,
    request_body_size: u64,
    response_body: CapturedBody,
    response_body_size: u64,
    tls: TlsInformation,
) -> (r: TrafficEntry)
    requires
        approx_size_of(
            captured_request_of(
                head.method@,
                crate::capture::model::opt_view(head.path_and_query),
                crate::capture::model::opt_view(head.authority),
                raw_headers_view(head.headers@),
            ),
        ) <= u64::MAX,
        approx_size_of(captured_of(raw_headers_view(response.headers@))) <= u64::MAX,
    ensures
        r@ == h2_entry_of(
            id,
            started_at_nanos,
            duration_nanos,
            process_id,
            *target,
            *head,
            *response,
            request_body@,
            request_body_size,
            response_body@,
            response_body_size,
            tls@,
        ),
{
    let request_headers = capture_h2_request_headers(head);
    let response_headers = capture_h2_headers(&response.headers);
    let request_size = approx_headers_size(request_headers.as_slice()).saturating_add(request_body_size);
    let response_size = approx_headers_size(response_headers.as_slice()).saturating_add(response_body_size);
    TrafficEntry {
        id,
        started_at_nanos,
        duration_nanos,
        process_id,
        scheme: text::to_owned("https"),
        host: target.host.clone(),
        port: target.port,
        method: head.method.clone(),
        path: h2_path(head),
        http_version: text::to_owned("HTTP/2"),
        request_headers,
        request_body,
        response_status: Some(response.status),
        response_headers,
        response_body,
        request_size,
        response_size,
        tls: Some(tls),
        error: None,
    }
}

/// The entry recorded for an HTTP/2 stream that failed with `error`: what is known
/// of the request, status 502 and the error.
pub open spec fn h2_error_entry_of(
    id: u64,
    started_at_nanos: u64,
    duration_nanos: u64,
    process_id: Option<u32>,
    target: ConnectTarget,
    head: H2Head,
    error: Seq<char>,
) -> TrafficEntryView {
    TrafficEntryView {
        id,
        started_at_nanos,
        duration_nanos,
        process_id,
        scheme: "https"@,
        host: target.host@,
        port: target.port,
        method: head.method@,
        path: h2_path_of(crate::capture::model::opt_view(head.path_and_query)),
        http_version: "HTTP/2"@,
        request_headers: captured_request_of(
            head.method@,
            crate::capture::model::opt_view(head.path_and_query),
            crate::capture::model::opt_view(head.authority),
            raw_headers_view(head.headers@),
        ),
        request_body: CapturedBody::empty_view(),
        response_status: Some(502u16),
        response_headers: Seq::empty(),
        response_body: CapturedBody::empty_view(),
        request_size: 0,
        response_size: 0,
        tls: None,
        error: Some(error),
    }
}

/// The entry recorded for an HTTP/2 stream that failed with `error`.
pub fn h2_error_entry(
    id: u64,
    started_at_nanos: u64,
    duration_nanos: u64,
    process_id: Option<u32>,
    target: &ConnectTarget,
    head: &H2Head,
    error: String,
) -> (r: TrafficEntry)
    ensures
        r@ == h2_error_entry_of(id, started_at_nanos, duration_nanos, process_id, *target, *head, error@),
{
    let r = TrafficEntry {
        id,
        started_at_nanos,
        duration_nanos,
        process_id,
        scheme: text::to_owned("https"),
        host: target.host.clone(),
        port: target.port,
        method: head.method.clone(),
        path: h2_path(head),
        http_version: text::to_owned("HTTP/2"),
        request_headers: capture_h2_request_headers(head),
        request_body: CapturedBody::empty(),
        response_status: Some(502),
        response_headers: Vec::new(),
        response_body: CapturedBody::empty(),
        request_size: 0,
        response_size: 0,
        tls: None,
        error: Some(error),
    };
    assert(r@.response_headers =~= Seq::<(Seq<char>, Seq<char>)>::empty());
    r
}

} // verus!
