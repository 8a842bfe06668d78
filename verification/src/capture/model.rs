//! The captured-traffic model.

use crate::text;
use vstd::prelude::*;

verus! {

/// Copies an optional string.
pub fn copy_opt_string(o: &Option<String>) -> (r: Option<String>)
    ensures
        r == *o,
{
    match o {
        Some(s) => Some(s.clone()),
        None => None,
    }
}

/// The view of an optional string.
pub open spec fn opt_view(o: Option<String>) -> Option<Seq<char>> {
    match o {
        Some(s) => Some(s@),
        None => None,
    }
}

/// The view of a header list: (name, value) pairs of character sequences.
pub open spec fn headers_view(h: Seq<(String, String)>) -> Seq<(Seq<char>, Seq<char>)> {
    h.map_values(|p: (String, String)| (p.0@, p.1@))
}

/// Copies a header list.
pub fn copy_headers(h: &Vec<(String, String)>) -> (r: Vec<(String, String)>)
    ensures
        headers_view(r@) == headers_view(h@),
        r@.len() == h@.len(),
{
    let mut r: Vec<(String, String)> = Vec::new();
    let mut i: usize = 0;
    while i < h.len()
        invariant
            0 <= i <= h.len(),
            r@.len() == i,
            forall|j: int| 0 <= j < i ==> r@[j].0@ == h@[j].0@ && r@[j].1@ == h@[j].1@,
        decreases h.len() - i,
    {
        let (a, b) = (h[i].0.clone(), h[i].1.clone());
        r.push((a, b));
        i = i + 1;
    }
    assert(headers_view(r@) =~= headers_view(h@));
    r
}

/// The model of a captured body.
pub struct CapturedBodyView {
    pub bytes: Seq<u8>,
    pub original_size: u64,
    pub decoded_size: Option<u64>,
    pub truncated: bool,
    pub content_type: Option<Seq<char>>,
    pub content_encoding: Option<Seq<char>>,
    pub transfer_encoding: Option<Seq<char>>,
}

/// A request or response body as captured: at most a configured number of bytes
/// is kept, while `original_size` counts everything that passed through.
#[derive(Debug, Clone)]
pub struct CapturedBody {
    pub bytes: Vec<u8>,
    pub original_size: u64,
    pub decoded_size: Option<u64>,
    pub truncated: bool,
    pub content_type: Option<String>,
    pub content_encoding: Option<String>,
    pub transfer_encoding: Option<String>,
}

impl View for CapturedBody {
    type V = CapturedBodyView;

    open spec fn view(&self) -> CapturedBodyView {
        CapturedBodyView {
            bytes: self.bytes@,
            original_size: self.original_size,
            decoded_size: self.decoded_size,
            truncated: self.truncated,
            content_type: opt_view(self.content_type),
            content_encoding: opt_view(self.content_encoding),
            transfer_encoding: opt_view(self.transfer_encoding),
        }
    }
}

/// Saturating addition on `u64`.
pub open spec fn sat_add(a: u64, b: int) -> u64 {
    if a + b > u64::MAX { u64::MAX } else { (a + b) as u64 }
}

/// One capture step: `chunk` passes through a body that keeps at most `max` bytes.
pub open spec fn capture_step(b: CapturedBodyView, chunk: Seq<u8>, max: nat) -> CapturedBodyView {
    let remaining: int = if max > b.bytes.len() { max - b.bytes.len() } else { 0 };
    let keep: int = if remaining < chunk.len() { remaining } else { chunk.len() as int };
    CapturedBodyView {
        bytes: b.bytes + chunk.take(keep),
        original_size: sat_add(b.original_size, chunk.len() as int),
        truncated: b.truncated || keep < chunk.len(),
        ..b
    }
}

/// The body after chunks pass through it one after another.
pub open spec fn capture_all(b: CapturedBodyView, chunks: Seq<Seq<u8>>, max: nat) -> CapturedBodyView
    decreases chunks.len(),
{
    if chunks.len() == 0 {
        b
    } else {
        capture_all(capture_step(b, chunks[0], max), chunks.drop_first(), max)
    }
}

/// A captured body keeps at most `max` bytes, whatever passes through it: once the
/// chunks have passed, it holds exactly the first `max` bytes of what it held and
/// what passed, and it is marked truncated exactly when more than that passed (or it
/// already was).
pub proof fn lemma_capture_keeps_first_bytes(b: CapturedBodyView, chunks: Seq<Seq<u8>>, max: nat)
    requires
        b.bytes.len() <= max,
    ensures
        ({
            let all = b.bytes + chunks.flatten();
            let r = capture_all(b, chunks, max);
            &&& r.bytes == all.take(if all.len() < max { all.len() as int } else { max as int })
            &&& r.truncated == (b.truncated || all.len() > max)
            &&& r.original_size == sat_add(b.original_size, chunks.flatten().len() as int)
            &&& r.content_type == b.content_type
            &&& r.content_encoding == b.content_encoding
            &&& r.decoded_size == b.decoded_size
        }),
    decreases chunks.len(),
{
    let all = b.bytes + chunks.flatten();
    if chunks.len() == 0 {
        assert(all =~= b.bytes);
        assert(all.take(all.len() as int) =~= all);
    } else {
        let c = chunks[0];
        let rest = chunks.drop_first();
        let b2 = capture_step(b, c, max);
        lemma_capture_keeps_first_bytes(b2, rest, max);
        assert(chunks.flatten() == c + rest.flatten());
        assert(all =~= (b.bytes + c) + rest.flatten());
        assert(sat_add(sat_add(b.original_size, c.len() as int), rest.flatten().len() as int) == sat_add(
            b.original_size,
            chunks.flatten().len() as int,
        ));
        let all2 = b2.bytes + rest.flatten();
        if b.bytes.len() + c.len() <= max {
            assert(b2.bytes =~= b.bytes + c);
            assert(all2 =~= all);
        } else {
            assert(b2.bytes =~= (b.bytes + c).take(max as int));
            assert(all2.take(max as int) =~= all.take(max as int));
        }
    }
}

/// However a body arrives in pieces, capturing the pieces one after another into a
/// body with nothing captured gives what capturing the whole body at once gives: the
/// first `max` bytes, the full size (saturating at the largest `u64`), and the
/// truncation mark exactly when more than `max` bytes arrived.
pub proof fn lemma_pieces_capture_as_whole(
    start: CapturedBodyView,
    chunks: Seq<Seq<u8>>,
    max: nat,
    whole: CapturedBodyView,
)
    requires
        start.bytes.len() == 0,
        start.original_size == 0,
        !start.truncated,
        whole.bytes == chunks.flatten().take(
            if chunks.flatten().len() < max { chunks.flatten().len() as int } else { max as int },
        ),
        whole.original_size == sat_add(0, chunks.flatten().len() as int),
        whole.truncated == (chunks.flatten().len() > max),
    ensures
        capture_all(start, chunks, max).bytes == whole.bytes,
        capture_all(start, chunks, max).original_size == whole.original_size,
        capture_all(start, chunks, max).truncated == whole.truncated,
{
    lemma_capture_keeps_first_bytes(start, chunks, max);
    assert(start.bytes + chunks.flatten() =~= chunks.flatten());
}

impl CapturedBody {
    /// The model of a body with nothing captured.
    pub open spec fn empty_view() -> CapturedBodyView {
        CapturedBodyView {
            bytes: Seq::empty(),
            original_size: 0,
            decoded_size: None,
            truncated: false,
            content_type: None,
            content_encoding: None,
            transfer_encoding: None,
        }
    }

    /// A body with nothing captured.
    pub fn empty() -> (r: Self)
        ensures
            r@ == Self::empty_view(),
            r@.bytes.len() == 0,
            r@.original_size == 0,
            r@.decoded_size is None,
            !r@.truncated,
            r@.content_type is None,
            r@.content_encoding is None,
            r@.transfer_encoding is None,
    {
        CapturedBody {
            bytes: Vec::new(),
            original_size: 0,
            decoded_size: None,
            truncated: false,
            content_type: None,
            content_encoding: None,
            transfer_encoding: None,
        }
    }

    /// Captures a whole body at once, keeping at most `max_body_size` bytes.
    pub fn from_bytes(
        bytes: &[u8],
        max_body_size: usize,
        content_type: Option<String>,
        content_encoding: Option<String>,
    ) -> (r: Self)
        ensures
            r@.bytes == bytes@.take(
                if bytes@.len() < max_body_size { bytes@.len() as int } else { max_body_size as int },
            ),
            r@.original_size == bytes@.len(),
            r@.decoded_size is None,
            r@.truncated == (bytes@.len() > max_body_size),
            r.content_type == content_type,
            r.content_encoding == content_encoding,
            r@.transfer_encoding is None,
    {
        let keep = if bytes.len() < max_body_size { bytes.len() } else { max_body_size };
        let mut kept: Vec<u8> = Vec::new();
        let mut i: usize = 0;
        while i < keep
            invariant
                keep <= bytes.len(),
                0 <= i <= keep,
                kept@ == bytes@.take(i as int),
            decreases keep - i,
        {
            kept.push(bytes[i]);
            i = i + 1;
            assert(kept@ =~= bytes@.take(i as int));
        }
        CapturedBody {
            bytes: kept,
            original_size: bytes.len() as u64,
            decoded_size: None,
            truncated: bytes.len() > keep,
            content_type,
            content_encoding,
            transfer_encoding: None,
        }
    }

    /// Records `chunk` passing through: counts it and keeps what fits under `max_body_size`.
    pub fn push_capture(&mut self, chunk: &[u8], max_body_size: usize)
        ensures
            final(self)@ == capture_step(old(self)@, chunk@, max_body_size as nat),
    {
        let ghost old_bytes = self.bytes@;
        let len = chunk.len() as u64;
        self.original_size = if self.original_size > u64::MAX - len {
            u64::MAX
        } else {
            self.original_size + len
        };
        let remaining = if max_body_size > self.bytes.len() {
            max_body_size - self.bytes.len()
        } else {
            0
        };
        if remaining > 0 {
            let keep = if remaining < chunk.len() { remaining } else { chunk.len() };
            let mut i: usize = 0;
            while i < keep
                invariant
                    keep <= chunk.len(),
                    0 <= i <= keep,
                    self.bytes@ == old_bytes + chunk@.take(i as int),
                    self.original_size == sat_add(old(self).original_size, chunk@.len() as int),
                    self.truncated == old(self).truncated,
                    self.decoded_size == old(self).decoded_size,
                    self.content_type == old(self).content_type,
                    self.content_encoding == old(self).content_encoding,
                    self.transfer_encoding == old(self).transfer_encoding,
                decreases keep - i,
            {
                self.bytes.push(chunk[i]);
                i = i + 1;
                assert(self.bytes@ =~= old_bytes + chunk@.take(i as int));
            }
            if keep < chunk.len() {
                self.truncated = true;
            }
        } else if chunk.len() > 0 {
            self.truncated = true;
            assert(chunk@.take(0) =~= Seq::<u8>::empty());
            assert(self.bytes@ =~= old_bytes + chunk@.take(0));
        } else {
            assert(chunk@.take(0) =~= Seq::<u8>::empty());
            assert(self.bytes@ =~= old_bytes + chunk@.take(0));
        }
    }

    /// The captured bytes as text when they are valid UTF-8.
    pub fn text_preview(&self) -> (r: Option<String>)
        ensures
            r is Some <==> vstd::utf8::valid_utf8(self.bytes@),
            r matches Some(s) ==> s@ == vstd::utf8::decode_utf8(self.bytes@),
    {
        utf8_text(self.bytes.as_slice())
    }

    /// Copies the body.
    pub fn copy(&self) -> (r: Self)
        ensures
            r@ == self@,
    {
        let bytes = self.bytes.clone();
        assert(bytes@ =~= self.bytes@);
        CapturedBody {
            bytes,
            original_size: self.original_size,
            decoded_size: self.decoded_size,
            truncated: self.truncated,
            content_type: copy_opt_string(&self.content_type),
            content_encoding: copy_opt_string(&self.content_encoding),
            transfer_encoding: copy_opt_string(&self.transfer_encoding),
        }
    }
}

/// Decodes bytes as UTF-8 text, as `std::str::from_utf8` does: `Some` exactly when the
/// bytes are valid UTF-8, with the decoded characters.
#[verifier::external_body]
pub(crate) fn utf8_text(bytes: &[u8]) -> (r: Option<String>)
    ensures
        r is Some <==> vstd::utf8::valid_utf8(bytes@),
        r matches Some(s) ==> s@ == vstd::utf8::decode_utf8(bytes@),
{
    std::str::from_utf8(bytes).ok().map(|s| s.to_string())
}


/// The name of what `String::from_utf8_lossy` gives for bytes: the text with each
/// invalid sequence replaced by U+FFFD.
pub uninterp spec fn utf8_lossy(bytes: Seq<u8>) -> Seq<char>;

/// Decodes bytes as UTF-8, replacing invalid sequences, by `String::from_utf8_lossy`.
/// Valid UTF-8 decodes to its characters.
#[verifier::external_body]
pub(crate) fn utf8_lossy_text(bytes: &[u8]) -> (r: String)
    ensures
        r@ == utf8_lossy(bytes@),
        vstd::utf8::valid_utf8(bytes@) ==> r@ == vstd::utf8::decode_utf8(bytes@),
{
    String::from_utf8_lossy(bytes).into_owned()
}

/// Whether `core::net::IpAddr` parses the text: the result of its `FromStr`.
pub uninterp spec fn is_ip_addr_text(s: Seq<char>) -> bool;

/// Whether the text parses as an IP address, by `str::parse::<core::net::IpAddr>`.
#[verifier::external_body]
pub(crate) fn parses_as_ip_addr(s: &str) -> (r: bool)
    ensures
        r == is_ip_addr_text(s@),
{
    s.parse::<core::net::IpAddr>().is_ok()
}

/// Details of a decrypted TLS connection.
#[derive(Debug, Clone)]
pub struct TlsInformation {
    pub host: String,
    pub tls_version: Option<String>,
    pub alpn: Option<String>,
    pub certificate: Option<CertificateInformation>,
    pub verification: String,
    pub child_certificate_note: String,
}

/// Details of the upstream server certificate.
#[derive(Debug, Clone)]
pub struct CertificateInformation {
    pub issuer: String,
    pub subject: String,
    pub san: Vec<String>,
    pub valid_from: String,
    pub valid_until: String,
    pub sha256_fingerprint: String,
}

/// The model of certificate details.
pub struct CertificateInformationView {
    pub issuer: Seq<char>,
    pub subject: Seq<char>,
    pub san: Seq<Seq<char>>,
    pub valid_from: Seq<char>,
    pub valid_until: Seq<char>,
    pub sha256_fingerprint: Seq<char>,
}

/// The model of TLS details.
pub struct TlsInformationView {
    pub host: Seq<char>,
    pub tls_version: Option<Seq<char>>,
    pub alpn: Option<Seq<char>>,
    pub certificate: Option<CertificateInformationView>,
    pub verification: Seq<char>,
    pub child_certificate_note: Seq<char>,
}

impl View for CertificateInformation {
    type V = CertificateInformationView;

    open spec fn view(&self) -> CertificateInformationView {
        CertificateInformationView {
            issuer: self.issuer@,
            subject: self.subject@,
            san: text::views(self.san@),
            valid_from: self.valid_from@,
            valid_until: self.valid_until@,
            sha256_fingerprint: self.sha256_fingerprint@,
        }
    }
}

impl View for TlsInformation {
    type V = TlsInformationView;

    open spec fn view(&self) -> TlsInformationView {
        TlsInformationView {
            host: self.host@,
            tls_version: opt_view(self.tls_version),
            alpn: opt_view(self.alpn),
            certificate: match self.certificate {
                Some(c) => Some(c@),
                None => None,
            },
            verification: self.verification@,
            child_certificate_note: self.child_certificate_note@,
        }
    }
}

/// Copies a list of strings.
pub fn copy_strings(v: &Vec<String>) -> (r: Vec<String>)
    ensures
        text::views(r@) == text::views(v@),
{
    let mut r: Vec<String> = Vec::new();
    let mut i: usize = 0;
    while i < v.len()
        invariant
            0 <= i <= v.len(),
            r@.len() == i,
            forall|j: int| 0 <= j < i ==> r@[j]@ == v@[j]@,
        decreases v.len() - i,
    {
        r.push(v[i].clone());
        i = i + 1;
    }
    assert(text::views(r@) =~= text::views(v@));
    r
}

impl CertificateInformation {
    /// A field-by-field copy.
    pub fn copy(&self) -> (r: Self)
        ensures
            r@ == self@,
    {
        CertificateInformation {
            issuer: self.issuer.clone(),
            subject: self.subject.clone(),
            san: copy_strings(&self.san),
            valid_from: self.valid_from.clone(),
            valid_until: self.valid_until.clone(),
            sha256_fingerprint: self.sha256_fingerprint.clone(),
        }
    }
}

impl TlsInformation {
    /// A field-by-field copy.
    pub fn copy(&self) -> (r: Self)
        ensures
            r@ == self@,
    {
        TlsInformation {
            host: self.host.clone(),
            tls_version: copy_opt_string(&self.tls_version),
            alpn: copy_opt_string(&self.alpn),
            certificate: match &self.certificate {
                Some(c) => Some(c.copy()),
                None => None,
            },
            verification: self.verification.clone(),
            child_certificate_note: self.child_certificate_note.clone(),
        }
    }
}

/// The model of a captured exchange.
pub struct TrafficEntryView {
    pub id: u64,
    pub started_at_nanos: u64,
    pub duration_nanos: u64,
    pub process_id: Option<u32>,
    pub scheme: Seq<char>,
    pub host: Seq<char>,
    pub port: u16,
    pub method: Seq<char>,
    pub path: Seq<char>,
    pub http_version: Seq<char>,
    pub request_headers: Seq<(Seq<char>, Seq<char>)>,
    pub request_body: CapturedBodyView,
    pub response_status: Option<u16>,
    pub response_headers: Seq<(Seq<char>, Seq<char>)>,
    pub response_body: CapturedBodyView,
    pub request_size: u64,
    pub response_size: u64,
    pub tls: Option<TlsInformationView>,
    pub error: Option<Seq<char>>,
}

/// One captured request/response exchange (or CONNECT tunnel).
///
/// Times are kept as plain numbers: `started_at_nanos` counts nanoseconds since the
/// Unix epoch and `duration_nanos` the length of the exchange.
#[derive(Debug, Clone)]
pub struct TrafficEntry {
    pub id: u64,
    pub started_at_nanos: u64,
    pub duration_nanos: u64,
    pub process_id: Option<u32>,
    pub scheme: String,
    pub host: String,
    pub port: u16,
    pub method: String,
    pub path: String,
    pub http_version: String,
    pub request_headers: Vec<(String, String)>,
    pub request_body: CapturedBody,
    pub response_status: Option<u16>,
    pub response_headers: Vec<(String, String)>,
    pub response_body: CapturedBody,
    pub request_size: u64,
    pub response_size: u64,
    pub tls: Option<TlsInformation>,
    pub error: Option<String>,
}

impl View for TrafficEntry {
    type V = TrafficEntryView;

    open spec fn view(&self) -> TrafficEntryView {
        TrafficEntryView {
            id: self.id,
            started_at_nanos: self.started_at_nanos,
            duration_nanos: self.duration_nanos,
            process_id: self.process_id,
            scheme: self.scheme@,
            host: self.host@,
            port: self.port,
            method: self.method@,
            path: self.path@,
            http_version: self.http_version@,
            request_headers: headers_view(self.request_headers@),
            request_body: self.request_body@,
            response_status: self.response_status,
            response_headers: headers_view(self.response_headers@),
            response_body: self.response_body@,
            request_size: self.request_size,
            response_size: self.response_size,
            tls: match self.tls {
                Some(t) => Some(t@),
                None => None,
            },
            error: opt_view(self.error),
        }
    }
}

/// Whether the method is CONNECT, in any letter case.
pub open spec fn is_connect_method(method: Seq<char>) -> bool {
    text::eq_ignore_case(method, "CONNECT"@)
}

/// The scheme's default port is in use.
pub open spec fn is_default_port(scheme: Seq<char>, port: u16) -> bool {
    (scheme == "http"@ && port == 80) || (scheme == "https"@ && port == 443)
}

/// The host as written in an authority: IPv6 addresses get brackets.
pub open spec fn authority_host(host: Seq<char>) -> Seq<char> {
    if is_ip_addr_text(host) && text::find(host, ':') is Some {
        "["@ + host + "]"@
    } else {
        host
    }
}

/// `host[:port]`; the port is left out only for a default port when not asked for.
pub open spec fn entry_authority(scheme: Seq<char>, host: Seq<char>, port: u16, include_default_port: bool) -> Seq<char> {
    if include_default_port || !is_default_port(scheme, port) {
        authority_host(host) + ":"@ + text::decimal(port as nat)
    } else {
        authority_host(host)
    }
}

/// The URL of an entry.
pub open spec fn entry_url(e: TrafficEntryView) -> Seq<char> {
    if is_connect_method(e.method) {
        e.scheme + "://"@ + entry_authority(e.scheme, e.host, e.port, true)
    } else {
        e.scheme + "://"@ + entry_authority(e.scheme, e.host, e.port, false) + e.path
    }
}

/// The target shown in the request list.
pub open spec fn entry_display_target(e: TrafficEntryView) -> Seq<char> {
    if is_connect_method(e.method) {
        entry_authority(e.scheme, e.host, e.port, true)
    } else {
        e.host + e.path
    }
}

/// The status label: the error, or the status class and code, or OPEN.
pub open spec fn status_label_of(error: Option<Seq<char>>, status: Option<u16>) -> Seq<char> {
    match error {
        Some(e) => "ERR "@ + e,
        None => match status {
            Some(s) => if 200 <= s && s < 300 {
                "OK "@ + text::decimal(s as nat)
            } else if 300 <= s && s < 400 {
                "REDIR "@ + text::decimal(s as nat)
            } else if 400 <= s && s < 500 {
                "CLIENT "@ + text::decimal(s as nat)
            } else if s >= 500 {
                "SERVER "@ + text::decimal(s as nat)
            } else {
                text::decimal(s as nat)
            },
            None => "OPEN"@,
        },
    }
}

impl TrafficEntry {
    /// The full URL: `scheme://authority` for CONNECT, `scheme://authority/path` otherwise.
    pub fn url(&self) -> (r: String)
        ensures
            r@ == entry_url(self@),
    {
        let mut r = self.scheme.clone();
        text::push_str(&mut r, "://");
        if self.is_connect() {
            let a = self.authority(true);
            text::push_str(&mut r, a.as_str());
        } else {
            let a = self.authority(false);
            text::push_str(&mut r, a.as_str());
            text::push_str(&mut r, self.path.as_str());
        }
        r
    }

    /// `host:port` for CONNECT, `host` followed by the path otherwise.
    pub fn display_target(&self) -> (r: String)
        ensures
            r@ == entry_display_target(self@),
    {
        if self.is_connect() {
            self.authority(true)
        } else {
            let mut r = self.host.clone();
            text::push_str(&mut r, self.path.as_str());
            r
        }
    }

    /// The status label shown in lists and reports.
    pub fn status_label(&self) -> (r: String)
        ensures
            r@ == status_label_of(opt_view(self.error), self.response_status),
    {
        status_label_for(&self.error, self.response_status)
    }

    fn is_connect(&self) -> (r: bool)
        ensures
            r == is_connect_method(self.method@),
    {
        text::eq_ignore_case_str(self.method.as_str(), "CONNECT")
    }

    fn authority(&self, include_default_port: bool) -> (r: String)
        ensures
            r@ == entry_authority(self.scheme@, self.host@, self.port, include_default_port),
    {
        authority_text(&self.scheme, &self.host, self.port, include_default_port)
    }

    /// Copies the entry.
    pub fn copy(&self) -> (r: Self)
        ensures
            r@ == self@,
    {
        TrafficEntry {
            id: self.id,
            started_at_nanos: self.started_at_nanos,
            duration_nanos: self.duration_nanos,
            process_id: self.process_id,
            scheme: self.scheme.clone(),
            host: self.host.clone(),
            port: self.port,
            method: self.method.clone(),
            path: self.path.clone(),
            http_version: self.http_version.clone(),
            request_headers: copy_headers(&self.request_headers),
            request_body: self.request_body.copy(),
            response_status: self.response_status,
            response_headers: copy_headers(&self.response_headers),
            response_body: self.response_body.copy(),
            request_size: self.request_size,
            response_size: self.response_size,
            tls: match &self.tls {
                Some(t) => Some(t.copy()),
                None => None,
            },
            error: copy_opt_string(&self.error),
        }
    }
}

/// The status label for an optional error and status.
pub fn status_label_for(error: &Option<String>, status: Option<u16>) -> (r: String)
    ensures
        r@ == status_label_of(opt_view(*error), status),
{
    match error {
        Some(e) => {
            let mut r = text::to_owned("ERR ");
            text::push_str(&mut r, e.as_str());
            r
        },
        None => match status {
            Some(s) => {
                let mut r = if 200 <= s && s < 300 {
                    text::to_owned("OK ")
                } else if 300 <= s && s < 400 {
                    text::to_owned("REDIR ")
                } else if 400 <= s && s < 500 {
                    text::to_owned("CLIENT ")
                } else if s >= 500 {
                    text::to_owned("SERVER ")
                } else {
                    String::new()
                };
                text::push_decimal(&mut r, s as u64);
                r
            },
            None => text::to_owned("OPEN"),
        },
    }
}

/// `host[:port]` for a scheme, host and port.
pub fn authority_text(scheme: &String, host: &String, port: u16, include_default_port: bool) -> (r: String)
    ensures
        r@ == entry_authority(scheme@, host@, port, include_default_port),
{
    let default_port = (text::str_eq(scheme.as_str(), "http") && port == 80) || (text::str_eq(
        scheme.as_str(),
        "https",
    ) && port == 443);
    let v = text::chars_of(host.as_str());
    let has_colon = text::find_from(&v, 0, ':').is_some();
    proof {
        text::lemma_find_bounds(host@, ':');
        if has_colon {
            let k = choose|k: int| 0 <= k < host@.len() && host@[k] == ':';
            if text::find(host@, ':') is None {
                assert(host@[k] != ':');
            }
        } else {
            if let Some(k) = text::find(host@, ':') {
                assert(v@[k as int] == ':');
            }
        }
    }
    let mut r = if parses_as_ip_addr(host.as_str()) && has_colon {
        let mut b = text::to_owned("[");
        text::push_str(&mut b, host.as_str());
        text::push_str(&mut b, "]");
        b
    } else {
        host.clone()
    };
    if include_default_port || !default_port {
        text::push_str(&mut r, ":");
        text::push_decimal(&mut r, port as u64);
    }
    r
}

} // verus!
