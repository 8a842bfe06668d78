//! HTTP/1 heads: parsing them with `httparse`, their headers, and framing.

use crate::capture::decode::{has_token, lists_token};
use crate::capture::details::{header, header_of};
use crate::capture::model::{headers_view, opt_view, utf8_lossy, utf8_lossy_text};
use crate::text;
use vstd::prelude::*;

verus! {

/// The largest request or response head the proxy reads.
pub const HEADER_LIMIT: usize = 65536;

/// A request head.
#[derive(Debug, Clone)]
pub struct ParsedRequest {
    pub method: String,
    pub path: String,
    pub version: String,
    pub headers: Vec<(String, String)>,
    pub content_length: Option<u64>,
    pub content_type: Option<String>,
    pub content_encoding: Option<String>,
    pub transfer_encoding: Option<String>,
}

/// A response head.
#[derive(Debug, Clone)]
pub struct ParsedResponse {
    pub status: u16,
    pub version: String,
    pub headers: Vec<(String, String)>,
    pub content_length: Option<u64>,
    pub content_type: Option<String>,
    pub content_encoding: Option<String>,
    pub transfer_encoding: Option<String>,
}

/// What `httparse` read from a head: whether it was complete, the request line or
/// status, the minor version and the headers with their raw values.
pub struct RawHead {
    pub complete: bool,
    pub method: Option<String>,
    pub path: Option<String>,
    pub code: Option<u16>,
    pub version: Option<u8>,
    pub headers: Vec<(String, Vec<u8>)>,
}

/// The model of a parsed head.
pub struct RawHeadView {
    pub complete: bool,
    pub method: Option<Seq<char>>,
    pub path: Option<Seq<char>>,
    pub code: Option<u16>,
    pub version: Option<u8>,
    pub headers: Seq<(Seq<char>, Seq<u8>)>,
}

impl View for RawHead {
    type V = RawHeadView;

    open spec fn view(&self) -> RawHeadView {
        RawHeadView {
            complete: self.complete,
            method: opt_view(self.method),
            path: opt_view(self.path),
            code: self.code,
            version: self.version,
            headers: self.headers@.map_values(|h: (String, Vec<u8>)| (h.0@, h.1@)),
        }
    }
}

/// The name of what `httparse::Request::parse` reads from bytes, with room for 128
/// headers; `None` when it reports an error.
pub uninterp spec fn request_head(bytes: Seq<u8>) -> Option<RawHeadView>;

/// The name of what `httparse::Response::parse` reads from bytes, with room for 128
/// headers; `None` when it reports an error.
pub uninterp spec fn response_head(bytes: Seq<u8>) -> Option<RawHeadView>;

/// The model of an optional parsed head.
pub open spec fn raw_head_result(r: Option<RawHead>) -> Option<RawHeadView> {
    match r {
        Some(h) => Some(h@),
        None => None,
    }
}

/// Parses a request head with `httparse::Request::parse` into 128 header slots.
#[verifier::external_body]
fn httparse_request(bytes: &[u8]) -> (r: Option<RawHead>)
    ensures
        raw_head_result(r) == request_head(bytes@),
{
    let mut headers = [httparse::EMPTY_HEADER; 128];
    let mut request = httparse::Request::new(&mut headers);
    let status = request.parse(bytes).ok()?;
    Some(RawHead {
        complete: status.is_complete(),
        method: request.method.map(|m| m.to_string()),
        path: request.path.map(|p| p.to_string()),
        code: None,
        version: request.version,
        headers: request.headers.iter().map(|h| (h.name.to_string(), h.value.to_vec())).collect(),
    })
}

/// Parses a response head with `httparse::Response::parse` into 128 header slots.
#[verifier::external_body]
fn httparse_response(bytes: &[u8]) -> (r: Option<RawHead>)
    ensures
        raw_head_result(r) == response_head(bytes@),
{
    let mut headers = [httparse::EMPTY_HEADER; 128];
    let mut response = httparse::Response::new(&mut headers);
    let status = response.parse(bytes).ok()?;
    Some(RawHead {
        complete: status.is_complete(),
        method: None,
        path: None,
        code: response.code,
        version: response.version,
        headers: response.headers.iter().map(|h| (h.name.to_string(), h.value.to_vec())).collect(),
    })
}

/// The value of the first header named `name`, in any letter case.
pub fn header_value(headers: &[(String, String)], name: &str) -> (r: Option<String>)
    ensures
        opt_view(r) == header_of(headers_view(headers@), name@),
{
    header(headers, name)
}

/// Whether a transfer encoding lists `chunked`.
pub fn has_chunked_transfer(value: &Option<String>) -> (r: bool)
    ensures
        r == lists_token(opt_view(*value), "chunked"@),
{
    has_token(value, "chunked")
}

/// The content length a head announces: the `Content-Length` header, trimmed, as an
/// unsigned number; `None` when missing or not a number.
pub open spec fn content_length_of(hs: Seq<(Seq<char>, Seq<char>)>) -> Option<u64> {
    match header_of(hs, "content-length"@) {
        Some(v) => match text::parse_uint(text::trim(v), u64::MAX as nat) {
            Some(n) => Some(n as u64),
            None => None,
        },
        None => None,
    }
}

fn content_length(headers: &Vec<(String, String)>) -> (r: Option<u64>)
    ensures
        r == content_length_of(headers_view(headers@)),
{
    match header_value(headers.as_slice(), "content-length") {
        Some(v) => {
            let t = text::trim_str(v.as_str());
            text::parse_uint_str(t.as_str(), u64::MAX)
        },
        None => None,
    }
}

/// Headers with their values decoded as UTF-8, invalid sequences replaced.
pub open spec fn decoded_headers(hs: Seq<(Seq<char>, Seq<u8>)>) -> Seq<(Seq<char>, Seq<char>)> {
    hs.map_values(|h: (Seq<char>, Seq<u8>)| (h.0, utf8_lossy(h.1)))
}

fn decode_headers(raw: &Vec<(String, Vec<u8>)>) -> (r: Vec<(String, String)>)
    ensures
        headers_view(r@) == decoded_headers(raw@.map_values(|h: (String, Vec<u8>)| (h.0@, h.1@))),
{
    let ghost rs = raw@.map_values(|h: (String, Vec<u8>)| (h.0@, h.1@));
    let mut r: Vec<(String, String)> = Vec::new();
    let mut i: usize = 0;
    while i < raw.len()
        invariant
            0 <= i <= raw@.len(),
            rs == raw@.map_values(|h: (String, Vec<u8>)| (h.0@, h.1@)),
            headers_view(r@) =~= decoded_headers(rs.take(i as int)),
        decreases raw.len() - i,
    {
        let name = raw[i].0.clone();
        let value = utf8_lossy_text(raw[i].1.as_slice());
        let ghost before = r@;
        r.push((name, value));
        proof {
            assert(headers_view(r@) =~= headers_view(before).push((name@, value@)));
            assert(rs.take(i + 1) =~= rs.take(i as int).push(rs[i as int]));
        }
        i = i + 1;
    }
    proof {
        assert(rs.take(raw@.len() as int) =~= rs);
    }
    r
}

/// `HTTP/1.` and the minor version, 1 when the head gave none.
pub open spec fn version_text(v: Option<u8>) -> Seq<char> {
    "HTTP/1."@ + text::decimal(
        match v {
            Some(x) => x as nat,
            None => 1,
        },
    )
}

fn version_string(v: Option<u8>) -> (r: String)
    ensures
        r@ == version_text(v),
{
    let mut r = text::to_owned("HTTP/1.");
    match v {
        Some(x) => text::push_decimal(&mut r, x as u64),
        None => text::push_decimal(&mut r, 1),
    }
    r
}

/// The model of a parsed request head.
pub struct RequestView {
    pub method: Seq<char>,
    pub path: Seq<char>,
    pub version: Seq<char>,
    pub headers: Seq<(Seq<char>, Seq<char>)>,
    pub content_length: Option<u64>,
    pub content_type: Option<Seq<char>>,
    pub content_encoding: Option<Seq<char>>,
    pub transfer_encoding: Option<Seq<char>>,
}

impl View for ParsedRequest {
    type V = RequestView;

    open spec fn view(&self) -> RequestView {
        RequestView {
            method: self.method@,
            path: self.path@,
            version: self.version@,
            headers: headers_view(self.headers@),
            content_length: self.content_length,
            content_type: opt_view(self.content_type),
            content_encoding: opt_view(self.content_encoding),
            transfer_encoding: opt_view(self.transfer_encoding),
        }
    }
}

/// The model of a parsed response head.
pub struct ResponseView {
    pub status: u16,
    pub version: Seq<char>,
    pub headers: Seq<(Seq<char>, Seq<char>)>,
    pub content_length: Option<u64>,
    pub content_type: Option<Seq<char>>,
    pub content_encoding: Option<Seq<char>>,
    pub transfer_encoding: Option<Seq<char>>,
}

impl View for ParsedResponse {
    type V = ResponseView;

    open spec fn view(&self) -> ResponseView {
        ResponseView {
            status: self.status,
            version: self.version@,
            headers: headers_view(self.headers@),
            content_length: self.content_length,
            content_type: opt_view(self.content_type),
            content_encoding: opt_view(self.content_encoding),
            transfer_encoding: opt_view(self.transfer_encoding),
        }
    }
}

/// A request head read from bytes, or why it could not be read.
pub open spec fn request_of(bytes: Seq<u8>) -> Result<RequestView, Seq<char>> {
    request_from_head(request_head(bytes))
}

/// A request head from what `httparse` read, or why it is not one.
pub open spec fn request_from_head(head: Option<RawHeadView>) -> Result<RequestView, Seq<char>> {
    match head {
        None => Err("failed to parse HTTP request"@),
        Some(h) => if !h.complete {
            Err("incomplete HTTP request header"@)
        } else {
            match h.method {
                None => Err("HTTP request has no method"@),
                Some(m) => match h.path {
                    None => Err("HTTP request has no path"@),
                    Some(p) => {
                        let hs = decoded_headers(h.headers);
                        Ok(
                            RequestView {
                                method: m,
                                path: p,
                                version: version_text(h.version),
                                headers: hs,
                                content_length: content_length_of(hs),
                                content_type: header_of(hs, "content-type"@),
                                content_encoding: header_of(hs, "content-encoding"@),
                                transfer_encoding: header_of(hs, "transfer-encoding"@),
                            },
                        )
                    },
                },
            }
        },
    }
}

/// A response head read from bytes, or why it could not be read.
pub open spec fn response_of(bytes: Seq<u8>) -> Result<ResponseView, Seq<char>> {
    response_from_head(response_head(bytes))
}

/// A response head from what `httparse` read, or why it is not one.
pub open spec fn response_from_head(head: Option<RawHeadView>) -> Result<ResponseView, Seq<char>> {
    match head {
        None => Err("failed to parse HTTP response"@),
        Some(h) => if !h.complete {
            Err("incomplete HTTP response header"@)
        } else {
            match h.code {
                None => Err("HTTP response has no status"@),
                Some(code) => {
                    let hs = decoded_headers(h.headers);
                    Ok(
                        ResponseView {
                            status: code,
                            version: version_text(h.version),
                            headers: hs,
                            content_length: content_length_of(hs),
                            content_type: header_of(hs, "content-type"@),
                            content_encoding: header_of(hs, "content-encoding"@),
                            transfer_encoding: header_of(hs, "transfer-encoding"@),
                        },
                    )
                },
            }
        },
    }
}

fn err_text(s: &str) -> (r: Result<ParsedRequest, String>)
    ensures
        r matches Err(e) && e@ == s@,
{
    Err(text::to_owned(s))
}

/// Reads a request head.
pub fn parse_request(header_bytes: &[u8]) -> (r: Result<ParsedRequest, String>)
    ensures
        match request_of(header_bytes@) {
            Ok(v) => r matches Ok(p) && p@ == v,
            Err(e) => r matches Err(m) && m@ == e,
        },
{
    request_from_raw(httparse_request(header_bytes))
}

/// A request head from what `httparse` read, or why it is not one.
pub fn request_from_raw(head: Option<RawHead>) -> (r: Result<ParsedRequest, String>)
    ensures
        match request_from_head(raw_head_result(head)) {
            Ok(v) => r matches Ok(p) && p@ == v,
            Err(e) => r matches Err(m) && m@ == e,
        },
{
    let raw = match head {
        Some(h) => h,
        None => return err_text("failed to parse HTTP request"),
    };
    if !raw.complete {
        return err_text("incomplete HTTP request header");
    }
    let method = match &raw.method {
        Some(m) => m.clone(),
        None => return err_text("HTTP request has no method"),
    };
    let path = match &raw.path {
        Some(p) => p.clone(),
        None => return err_text("HTTP request has no path"),
    };
    let version = version_string(raw.version);
    let headers = decode_headers(&raw.headers);
    let content_length = content_length(&headers);
    let content_type = header_value(headers.as_slice(), "content-type");
    let content_encoding = header_value(headers.as_slice(), "content-encoding");
    let transfer_encoding = header_value(headers.as_slice(), "transfer-encoding");
    Ok(
        ParsedRequest {
            method,
            path,
            version,
            headers,
            content_length,
            content_type,
            content_encoding,
            transfer_encoding,
        },
    )
}

fn response_err(s: &str) -> (r: Result<ParsedResponse, String>)
    ensures
        r matches Err(e) && e@ == s@,
{
    Err(text::to_owned(s))
}

/// Reads a response head.
pub fn parse_response(header_bytes: &[u8]) -> (r: Result<ParsedResponse, String>)
    ensures
        match response_of(header_bytes@) {
            Ok(v) => r matches Ok(p) && p@ == v,
            Err(e) => r matches Err(m) && m@ == e,
        },
{
    response_from_raw(httparse_response(header_bytes))
}

/// A response head from what `httparse` read, or why it is not one.
pub fn response_from_raw(head: Option<RawHead>) -> (r: Result<ParsedResponse, String>)
    ensures
        match response_from_head(raw_head_result(head)) {
            Ok(v) => r matches Ok(p) && p@ == v,
            Err(e) => r matches Err(m) && m@ == e,
        },
{
    let raw = match head {
        Some(h) => h,
        None => return response_err("failed to parse HTTP response"),
    };
    if !raw.complete {
        return response_err("incomplete HTTP response header");
    }
    let status = match raw.code {
        Some(c) => c,
        None => return response_err("HTTP response has no status"),
    };
    let version = version_string(raw.version);
    let headers = decode_headers(&raw.headers);
    let content_length = content_length(&headers);
    let content_type = header_value(headers.as_slice(), "content-type");
    let content_encoding = header_value(headers.as_slice(), "content-encoding");
    let transfer_encoding = header_value(headers.as_slice(), "transfer-encoding");
    Ok(
        ParsedResponse {
            status,
            version,
            headers,
            content_length,
            content_type,
            content_encoding,
            transfer_encoding,
        },
    )
}

/// Whether headers ask to switch to WebSocket: `Upgrade: websocket` and a
/// `Connection` header that lists `upgrade`.
pub open spec fn asks_websocket(hs: Seq<(Seq<char>, Seq<char>)>) -> bool {
    &&& header_of(hs, "upgrade"@) matches Some(v) && text::eq_ignore_case(text::trim(v), "websocket"@)
    &&& lists_token(header_of(hs, "connection"@), "upgrade"@)
}

fn asks_websocket_exec(headers: &Vec<(String, String)>) -> (r: bool)
    ensures
        r == asks_websocket(headers_view(headers@)),
{
    let upgrade = match header_value(headers.as_slice(), "upgrade") {
        Some(v) => {
            let t = text::trim_str(v.as_str());
            text::eq_ignore_case_str(t.as_str(), "websocket")
        },
        None => false,
    };
    if !upgrade {
        return false;
    }
    let connection = header_value(headers.as_slice(), "connection");
    has_token(&connection, "upgrade")
}

/// Whether a request asks to switch to WebSocket: a GET with the upgrade headers.
pub fn is_websocket_upgrade_request(request: &ParsedRequest) -> (r: bool)
    ensures
        r == (text::eq_ignore_case(request@.method, "GET"@) && asks_websocket(request@.headers)),
{
    text::eq_ignore_case_str(request.method.as_str(), "GET") && asks_websocket_exec(&request.headers)
}

/// Whether a response agrees to switch to WebSocket: status 101 with the upgrade
/// headers.
pub fn is_websocket_upgrade_response(response: &ParsedResponse) -> (r: bool)
    ensures
        r == (response@.status == 101 && asks_websocket(response@.headers)),
{
    response.status == 101 && asks_websocket_exec(&response.headers)
}

/// Whether a blank line `\r\n\r\n` starts at byte `i`.
pub open spec fn blank_line_at(b: Seq<u8>, i: int) -> bool {
    b[i] == 13u8 && b[i + 1] == 10u8 && b[i + 2] == 13u8 && b[i + 3] == 10u8
}

/// Where the head ends in the buffer, if it is all there.
pub fn find_header_end(buffer: &[u8]) -> (r: Option<usize>)
    ensures
        match r {
            Some(e) => 4 <= e <= buffer@.len() && blank_line_at(buffer@, e - 4) && forall|j: int|
                0 <= j < e - 4 ==> !blank_line_at(buffer@, j),
            None => forall|j: int| 0 <= j && j + 4 <= buffer@.len() ==> !blank_line_at(buffer@, j),
        },
{
    let n = buffer.len();
    if n < 4 {
        return None;
    }
    let mut i: usize = 0;
    while i <= n - 4
        invariant
            n == buffer@.len(),
            n >= 4,
            0 <= i <= n,
            forall|j: int| 0 <= j < i ==> !blank_line_at(buffer@, j),
        decreases n - i,
    {
        if buffer[i] == 13u8 && buffer[i + 1] == 10u8 && buffer[i + 2] == 13u8 && buffer[i + 3] == 10u8 {
            return Some(i + 4);
        }
        i = i + 1;
    }
    None
}

/// What to do with the bytes read so far of a head.
#[derive(Debug, Clone, Copy, PartialEq, Eq, Structural)]
pub enum HeadStatus {
    /// The head is complete and ends at this offset; what follows is body.
    Complete(usize),
    /// The head is larger than the limit.
    TooLarge,
    /// More bytes are needed.
    Incomplete,
}

/// Decides, after a read, whether the head is complete, too large or unfinished: a
/// buffer past the limit is too large even if it holds a complete head.
pub fn header_block_status(buffer: &[u8]) -> (r: HeadStatus)
    ensures
        buffer@.len() > HEADER_LIMIT ==> r == HeadStatus::TooLarge,
        buffer@.len() <= HEADER_LIMIT ==> match r {
            HeadStatus::Complete(e) => 4 <= e <= buffer@.len() && blank_line_at(buffer@, e - 4)
                && forall|j: int| 0 <= j < e - 4 ==> !blank_line_at(buffer@, j),
            HeadStatus::Incomplete => forall|j: int|
                0 <= j && j + 4 <= buffer@.len() ==> !blank_line_at(buffer@, j),
            HeadStatus::TooLarge => false,
        },
{
    if buffer.len() > HEADER_LIMIT {
        return HeadStatus::TooLarge;
    }
    match find_header_end(buffer) {
        Some(e) => HeadStatus::Complete(e),
        None => HeadStatus::Incomplete,
    }
}

/// The text of a short plain-text response that closes the connection.
pub open spec fn simple_response_of(status: u16, reason: Seq<char>, body: Seq<char>) -> Seq<char> {
    "HTTP/1.1 "@ + text::decimal(status as nat) + " "@ + reason
        + "\r\nContent-Type: text/plain; charset=utf-8\r\nContent-Length: "@ + text::decimal(
        text::byte_len(body),
    ) + "\r\nConnection: close\r\n\r\n"@ + body
}

/// A short plain-text response that closes the connection, as the proxy sends for
/// its own errors.
pub fn simple_response_text(status: u16, reason: &str, body: &str) -> (r: String)
    ensures
        r@ == simple_response_of(status, reason@, body@),
{
    let mut r = text::to_owned("HTTP/1.1 ");
    text::push_decimal(&mut r, status as u64);
    text::push_str(&mut r, " ");
    text::push_str(&mut r, reason);
    text::push_str(&mut r, "\r\nContent-Type: text/plain; charset=utf-8\r\nContent-Length: ");
    let n = text::str_len(body);
    text::push_decimal(&mut r, n as u64);
    text::push_str(&mut r, "\r\nConnection: close\r\n\r\n");
    text::push_str(&mut r, body);
    r
}

} // verus!
