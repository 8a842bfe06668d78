//! The text of the detail tabs: overview, request, response, TLS, timing and raw.

use crate::capture::decode::{decode_body_for_preview, preview_of, DEFAULT_PREVIEW_DECODE_LIMIT};
use crate::capture::export::{format_size, size_label};
use crate::capture::json::{parse_json, parsed_json, pretty_json_text, pretty_text};
use crate::capture::model::{
    entry_url, headers_view, opt_view, status_label_of, utf8_text, CapturedBody,
    CapturedBodyView, CertificateInformationView, TlsInformationView, TrafficEntry,
    TrafficEntryView,
};
use crate::text;
use vstd::prelude::*;

verus! {

/// What `N/A` stands for: a value that is not available.
pub open spec fn na() -> Seq<char> {
    "N/A"@
}

/// The value of the first header whose name matches `name`, in any letter case.
pub open spec fn header_of(hs: Seq<(Seq<char>, Seq<char>)>, name: Seq<char>) -> Option<Seq<char>>
    decreases hs.len(),
{
    if hs.len() == 0 {
        None
    } else if text::eq_ignore_case(hs[0].0, name) {
        Some(hs[0].1)
    } else {
        header_of(hs.drop_first(), name)
    }
}

/// The value of the first header named `name`, in any letter case.
pub fn header(headers: &[(String, String)], name: &str) -> (r: Option<String>)
    ensures
        opt_view(r) == header_of(headers_view(headers@), name@),
{
    let ghost hs = headers_view(headers@);
    let mut i: usize = 0;
    proof {
        assert(hs.skip(0) =~= hs);
    }
    while i < headers.len()
        invariant
            0 <= i <= headers@.len(),
            hs == headers_view(headers@),
            header_of(hs, name@) == header_of(hs.skip(i as int), name@),
        decreases headers.len() - i,
    {
        proof {
            assert(hs.skip(i as int).drop_first() =~= hs.skip(i + 1));
        }
        if text::eq_ignore_case_str(headers[i].0.as_str(), name) {
            return Some(headers[i].1.clone());
        }
        i = i + 1;
    }
    proof {
        assert(hs.skip(i as int) =~= Seq::<(Seq<char>, Seq<char>)>::empty());
    }
    None
}

/// A value, or `N/A` when there is none.
pub open spec fn or_na(o: Option<Seq<char>>) -> Seq<char> {
    match o {
        Some(v) => v,
        None => na(),
    }
}

fn push_or_na(out: &mut String, o: &Option<String>)
    ensures
        final(out)@ == old(out)@ + or_na(opt_view(*o)),
{
    match o {
        Some(v) => text::push_str(out, v.as_str()),
        None => text::push_str(out, "N/A"),
    }
}

// ---------------------------------------------------------------------------
// Hex preview
// ---------------------------------------------------------------------------

/// One byte of the hex preview: its two upper-case digits, then a space, except that
/// every sixteenth byte after the first starts a new line and has no space after it.
pub open spec fn hex_cell(index: int, b: u8) -> Seq<char> {
    let digits = seq![text::hex_upper_char((b / 16) as nat), text::hex_upper_char((b % 16) as nat)];
    if index > 0 && index % 16 == 0 {
        "\n"@ + digits
    } else {
        digits + " "@
    }
}

/// The hex preview of bytes.
pub open spec fn hex_cells(bytes: Seq<u8>) -> Seq<char>
    decreases bytes.len(),
{
    if bytes.len() == 0 {
        Seq::empty()
    } else {
        hex_cells(bytes.drop_last()) + hex_cell(bytes.len() - 1, bytes.last())
    }
}

/// The first 512 bytes in hexadecimal, sixteen to a line.
pub open spec fn hex_preview_of(bytes: Seq<u8>) -> Seq<char> {
    hex_cells(if bytes.len() > 512 {
        bytes.take(512)
    } else {
        bytes
    })
}

/// The first 512 bytes in hexadecimal, sixteen to a line.
pub fn hex_preview(bytes: &[u8]) -> (r: String)
    ensures
        r@ == hex_preview_of(bytes@),
{
    let n = if bytes.len() > 512 {
        512
    } else {
        bytes.len()
    };
    let ghost shown = if bytes@.len() > 512 {
        bytes@.take(512)
    } else {
        bytes@
    };
    let mut out = String::new();
    let mut i: usize = 0;
    proof {
        assert(shown.take(0) =~= Seq::<u8>::empty());
    }
    while i < n
        invariant
            0 <= i <= n,
            n == shown.len(),
            n <= bytes@.len(),
            shown == bytes@.take(n as int),
            out@ == hex_cells(shown.take(i as int)),
        decreases n - i,
    {
        let b = bytes[i];
        let ghost before = out@;
        if i > 0 && i % 16 == 0 {
            text::push_str(&mut out, "\n");
            text::push_hex_byte(&mut out, b);
        } else {
            text::push_hex_byte(&mut out, b);
            text::push_str(&mut out, " ");
        }
        proof {
            assert(shown.take(i + 1).drop_last() =~= shown.take(i as int));
            assert(shown[i as int] == b);
            assert(out@ =~= before + hex_cell(i as int, b));
        }
        i = i + 1;
    }
    proof {
        assert(shown.take(n as int) =~= shown);
    }
    out
}

// ---------------------------------------------------------------------------
// Body preview
// ---------------------------------------------------------------------------

/// `true` or `false`.
pub open spec fn bool_text(b: bool) -> Seq<char> {
    if b {
        "true"@
    } else {
        "false"@
    }
}

/// The text, or `identity` when there is none.
pub open spec fn or_identity(o: Option<Seq<char>>) -> Seq<char> {
    match o {
        Some(v) => v,
        None => "identity"@,
    }
}

/// The warning lines of a preview.
pub open spec fn warning_lines(ws: Seq<Seq<char>>) -> Seq<char>
    decreases ws.len(),
{
    if ws.len() == 0 {
        Seq::empty()
    } else {
        warning_lines(ws.drop_last()) + "decode warning: "@ + ws.last() + "\n"@
    }
}

/// The content of a preview: indented JSON for a JSON body that parses, the text of a
/// UTF-8 body, else a hex preview.
pub open spec fn preview_content(bytes: Seq<u8>, content_type: Option<Seq<char>>) -> Seq<char> {
    if vstd::utf8::valid_utf8(bytes) {
        let is_json = text::contains(
            match content_type {
                Some(t) => t,
                None => Seq::empty(),
            },
            "json"@,
        );
        if is_json && parsed_json(bytes) is Some {
            pretty_json_text(parsed_json(bytes).unwrap())
        } else {
            vstd::utf8::decode_utf8(bytes)
        }
    } else {
        hex_preview_of(bytes)
    }
}

/// The preview of a body: `N/A` for an empty one; else a line with its sizes and
/// encodings, the decode warnings, and the decoded content.
pub open spec fn body_preview_of(body: CapturedBodyView) -> Seq<char> {
    if body.original_size == 0 {
        na()
    } else {
        let d = preview_of(body, DEFAULT_PREVIEW_DECODE_LIMIT);
        "stored="@ + size_label(body.bytes.len() as u64) + " original="@ + size_label(
            body.original_size,
        ) + " decoded="@ + size_label(d.bytes.len() as u64) + " truncated="@ + bool_text(
            body.truncated,
        ) + " transfer="@ + or_identity(body.transfer_encoding) + " encoding="@ + or_identity(
            body.content_encoding,
        ) + "\n"@ + warning_lines(d.warnings) + preview_content(d.bytes, body.content_type)
    }
}

fn push_bool(out: &mut String, b: bool)
    ensures
        final(out)@ == old(out)@ + bool_text(b),
{
    if b {
        text::push_str(out, "true");
    } else {
        text::push_str(out, "false");
    }
}

fn push_or_identity(out: &mut String, o: &Option<String>)
    ensures
        final(out)@ == old(out)@ + or_identity(opt_view(*o)),
{
    match o {
        Some(v) => text::push_str(out, v.as_str()),
        None => text::push_str(out, "identity"),
    }
}

/// The preview of a captured body as the request and response tabs show it.
pub fn body_preview(body: &CapturedBody) -> (r: String)
    ensures
        r@ == body_preview_of(body@),
{
    if body.original_size == 0 {
        return text::to_owned("N/A");
    }
    let decoded = decode_body_for_preview(body);
    let mut out = String::new();
    text::push_str(&mut out, "stored=");
    let s1 = format_size(body.bytes.len() as u64);
    text::push_str(&mut out, s1.as_str());
    text::push_str(&mut out, " original=");
    let s2 = format_size(body.original_size);
    text::push_str(&mut out, s2.as_str());
    text::push_str(&mut out, " decoded=");
    let s3 = format_size(decoded.bytes.len() as u64);
    text::push_str(&mut out, s3.as_str());
    text::push_str(&mut out, " truncated=");
    push_bool(&mut out, body.truncated);
    text::push_str(&mut out, " transfer=");
    push_or_identity(&mut out, &body.transfer_encoding);
    text::push_str(&mut out, " encoding=");
    push_or_identity(&mut out, &body.content_encoding);
    text::push_str(&mut out, "\n");
    let ghost head = out@;
    let ghost ws = text::views(decoded.warnings@);
    let mut i: usize = 0;
    proof {
        assert(ws.take(0) =~= Seq::<Seq<char>>::empty());
    }
    while i < decoded.warnings.len()
        invariant
            0 <= i <= decoded.warnings@.len(),
            ws == text::views(decoded.warnings@),
            out@ == head + warning_lines(ws.take(i as int)),
        decreases decoded.warnings.len() - i,
    {
        text::push_str(&mut out, "decode warning: ");
        text::push_str(&mut out, decoded.warnings[i].as_str());
        text::push_str(&mut out, "\n");
        proof {
            assert(ws.take(i + 1).drop_last() =~= ws.take(i as int));
        }
        i = i + 1;
    }
    proof {
        assert(ws.take(decoded.warnings@.len() as int) =~= ws);
    }
    let ghost before_content = out@;
    match utf8_text(decoded.bytes.as_slice()) {
        Some(t) => {
            let is_json = match &body.content_type {
                Some(ct) => text::contains_str(ct.as_str(), "json"),
                None => {
                    proof {
                        reveal_strlit("json");
                        assert(!text::contains(Seq::<char>::empty(), "json"@));
                    }
                    false
                },
            };
            if is_json {
                match parse_json(decoded.bytes.as_slice()) {
                    Some(doc) => {
                        let pretty = pretty_text(&doc);
                        text::push_str(&mut out, pretty.as_str());
                        return out;
                    },
                    None => {},
                }
            }
            text::push_str(&mut out, t.as_str());
        },
        None => {
            let h = hex_preview(decoded.bytes.as_slice());
            text::push_str(&mut out, h.as_str());
        },
    }
    out
}

// ---------------------------------------------------------------------------
// Tabs
// ---------------------------------------------------------------------------

/// The header lines: `name: value` and a line break for each.
pub open spec fn header_block(hs: Seq<(Seq<char>, Seq<char>)>) -> Seq<char>
    decreases hs.len(),
{
    if hs.len() == 0 {
        Seq::empty()
    } else {
        header_block(hs.drop_last()) + hs.last().0 + ": "@ + hs.last().1 + "\n"@
    }
}

fn push_header_block(out: &mut String, headers: &Vec<(String, String)>)
    ensures
        final(out)@ == old(out)@ + header_block(headers_view(headers@)),
{
    let ghost hs = headers_view(headers@);
    let ghost start = out@;
    let mut i: usize = 0;
    proof {
        assert(hs.take(0) =~= Seq::<(Seq<char>, Seq<char>)>::empty());
    }
    while i < headers.len()
        invariant
            0 <= i <= headers@.len(),
            hs == headers_view(headers@),
            out@ == start + header_block(hs.take(i as int)),
        decreases headers.len() - i,
    {
        text::push_str(out, headers[i].0.as_str());
        text::push_str(out, ": ");
        text::push_str(out, headers[i].1.as_str());
        text::push_str(out, "\n");
        proof {
            assert(hs.take(i + 1).drop_last() =~= hs.take(i as int));
        }
        i = i + 1;
    }
    proof {
        assert(hs.take(headers@.len() as int) =~= hs);
    }
}

/// The name of the query pairs of a URL as `url::Url::parse` and `query_pairs` give
/// them, or `None` when the text is not a URL.
pub uninterp spec fn url_query_pairs(url: Seq<char>) -> Option<Seq<(Seq<char>, Seq<char>)>>;

/// Parses a URL with `url::Url::parse` and collects its decoded query pairs.
#[verifier::external_body]
fn query_pairs_of(url: &str) -> (r: Option<Vec<(String, String)>>)
    ensures
        match r {
            Some(v) => url_query_pairs(url@) == Some(headers_view(v@)),
            None => url_query_pairs(url@) is None,
        },
{
    url::Url::parse(url).ok().map(
        |u| u.query_pairs().map(|(k, v)| (k.into_owned(), v.into_owned())).collect(),
    )
}

/// The query parameters, `key=value` one per line, or `N/A`.
pub open spec fn query_text(url: Seq<char>) -> Seq<char> {
    match url_query_pairs(url) {
        Some(ps) => if ps.len() == 0 {
            na()
        } else {
            text::join(ps.map_values(|p: (Seq<char>, Seq<char>)| p.0 + "="@ + p.1), "\n"@)
        },
        None => na(),
    }
}

fn query_params(entry: &TrafficEntry) -> (r: String)
    ensures
        r@ == query_text(entry_url(entry@)),
{
    let url = entry.url();
    match query_pairs_of(url.as_str()) {
        Some(pairs) => {
            if pairs.len() == 0 {
                return text::to_owned("N/A");
            }
            let mut parts: Vec<String> = Vec::new();
            let mut i: usize = 0;
            let ghost ps = headers_view(pairs@);
            while i < pairs.len()
                invariant
                    0 <= i <= pairs@.len(),
                    ps == headers_view(pairs@),
                    text::views(parts@) =~= ps.take(i as int).map_values(
                        |p: (Seq<char>, Seq<char>)| p.0 + "="@ + p.1,
                    ),
                decreases pairs.len() - i,
            {
                let mut w = pairs[i].0.clone();
                text::push_str(&mut w, "=");
                text::push_str(&mut w, pairs[i].1.as_str());
                let ghost before = text::views(parts@);
                parts.push(w);
                proof {
                    assert(text::views(parts@) =~= before.push(w@));
                    assert(ps.take(i + 1) =~= ps.take(i as int).push(ps[i as int]));
                }
                i = i + 1;
            }
            proof {
                assert(ps.take(pairs@.len() as int) =~= ps);
            }
            text::join_strings(&parts, "\n")
        },
        None => text::to_owned("N/A"),
    }
}

/// The request tab: headers, query parameters, cookies and the body preview.
pub open spec fn request_text_of(e: TrafficEntryView) -> Seq<char> {
    "Headers:\n"@ + header_block(e.request_headers) + "\nQuery parameters:\n"@ + query_text(
        entry_url(e),
    ) + "\nCookies:\n"@ + or_na(header_of(e.request_headers, "cookie"@)) + "\n\nBody:\n"@
        + body_preview_of(e.request_body)
}

/// The request tab of an entry.
pub fn request_text(entry: &TrafficEntry) -> (r: String)
    ensures
        r@ == request_text_of(entry@),
{
    let mut out = text::to_owned("Headers:\n");
    push_header_block(&mut out, &entry.request_headers);
    text::push_str(&mut out, "\nQuery parameters:\n");
    let q = query_params(entry);
    text::push_str(&mut out, q.as_str());
    text::push_str(&mut out, "\nCookies:\n");
    let cookie = header(entry.request_headers.as_slice(), "cookie");
    push_or_na(&mut out, &cookie);
    text::push_str(&mut out, "\n\nBody:\n");
    let b = body_preview(&entry.request_body);
    text::push_str(&mut out, b.as_str());
    out
}

/// The response tab: status, headers, cookies and the body preview.
pub open spec fn response_text_of(e: TrafficEntryView) -> Seq<char> {
    "Status: "@ + status_label_of(e.error, e.response_status) + "\n\n"@ + "Headers:\n"@
        + header_block(e.response_headers) + "\nCookies:\n"@ + or_na(
        header_of(e.response_headers, "set-cookie"@),
    ) + "\n\nBody:\n"@ + body_preview_of(e.response_body)
}

/// The response tab of an entry.
pub fn response_text(entry: &TrafficEntry) -> (r: String)
    ensures
        r@ == response_text_of(entry@),
{
    let mut out = text::to_owned("Status: ");
    let label = entry.status_label();
    text::push_str(&mut out, label.as_str());
    text::push_str(&mut out, "\n\n");
    text::push_str(&mut out, "Headers:\n");
    push_header_block(&mut out, &entry.response_headers);
    text::push_str(&mut out, "\nCookies:\n");
    let cookie = header(entry.response_headers.as_slice(), "set-cookie");
    push_or_na(&mut out, &cookie);
    text::push_str(&mut out, "\n\nBody:\n");
    let b = body_preview(&entry.response_body);
    text::push_str(&mut out, b.as_str());
    out
}

/// The certificate fields as the TLS tab shows them.
pub open spec fn cert_field(c: Option<CertificateInformationView>, f: spec_fn(CertificateInformationView) -> Seq<char>) -> Seq<char> {
    match c {
        Some(c) => f(c),
        None => na(),
    }
}

/// The TLS tab of an entry whose connection was decrypted.
pub open spec fn tls_block(t: TlsInformationView) -> Seq<char> {
    let c = t.certificate;
    "Host: "@ + t.host + "\nTLS: "@ + or_na(t.tls_version) + "\nALPN: "@ + or_na(t.alpn)
        + "\nSubject: "@ + cert_field(c, |c: CertificateInformationView| c.subject)
        + "\nIssuer: "@ + cert_field(c, |c: CertificateInformationView| c.issuer) + "\nSAN: "@
        + cert_field(c, |c: CertificateInformationView| text::join(c.san, ", "@))
        + "\nValid from: "@ + cert_field(c, |c: CertificateInformationView| c.valid_from)
        + "\nValid until: "@ + cert_field(c, |c: CertificateInformationView| c.valid_until)
        + "\nSHA-256: "@ + cert_field(c, |c: CertificateInformationView| c.sha256_fingerprint)
        + "\nVerification: "@ + t.verification + "\n\n"@ + t.child_certificate_note
}

/// The TLS tab: the decrypted connection's details, or a note that there are none.
pub open spec fn tls_text_of(e: TrafficEntryView) -> Seq<char> {
    match e.tls {
        Some(t) => tls_block(t),
        None => "No decrypted TLS information. CONNECT may be tunneled or this was plain HTTP."@,
    }
}

/// The TLS tab of an entry.
pub fn tls_text(entry: &TrafficEntry) -> (r: String)
    ensures
        r@ == tls_text_of(entry@),
{
    match &entry.tls {
        Some(tls) => {
            let mut out = text::to_owned("Host: ");
            text::push_str(&mut out, tls.host.as_str());
            text::push_str(&mut out, "\nTLS: ");
            push_or_na(&mut out, &tls.tls_version);
            text::push_str(&mut out, "\nALPN: ");
            push_or_na(&mut out, &tls.alpn);
            match &tls.certificate {
                Some(cert) => {
                    text::push_str(&mut out, "\nSubject: ");
                    text::push_str(&mut out, cert.subject.as_str());
                    text::push_str(&mut out, "\nIssuer: ");
                    text::push_str(&mut out, cert.issuer.as_str());
                    text::push_str(&mut out, "\nSAN: ");
                    let san = text::join_strings(&cert.san, ", ");
                    text::push_str(&mut out, san.as_str());
                    text::push_str(&mut out, "\nValid from: ");
                    text::push_str(&mut out, cert.valid_from.as_str());
                    text::push_str(&mut out, "\nValid until: ");
                    text::push_str(&mut out, cert.valid_until.as_str());
                    text::push_str(&mut out, "\nSHA-256: ");
                    text::push_str(&mut out, cert.sha256_fingerprint.as_str());
                },
                None => {
                    text::push_str(&mut out, "\nSubject: N/A\nIssuer: N/A\nSAN: N/A");
                    text::push_str(&mut out, "\nValid from: N/A\nValid until: N/A\nSHA-256: N/A");
                    proof {
                        reveal_strlit("\nSubject: N/A\nIssuer: N/A\nSAN: N/A");
                        reveal_strlit("\nValid from: N/A\nValid until: N/A\nSHA-256: N/A");
                        reveal_strlit("\nSubject: ");
                        reveal_strlit("\nIssuer: ");
                        reveal_strlit("\nSAN: ");
                        reveal_strlit("\nValid from: ");
                        reveal_strlit("\nValid until: ");
                        reveal_strlit("\nSHA-256: ");
                        reveal_strlit("N/A");
                    }
                },
            }
            text::push_str(&mut out, "\nVerification: ");
            text::push_str(&mut out, tls.verification.as_str());
            text::push_str(&mut out, "\n\n");
            text::push_str(&mut out, tls.child_certificate_note.as_str());
            proof {
                assert(out@ =~= tls_block(tls@));
            }
            out
        },
        None => text::to_owned(
            "No decrypted TLS information. CONNECT may be tunneled or this was plain HTTP.",
        ),
    }
}

/// Whole milliseconds of a duration in nanoseconds, as `Duration::as_millis` gives.
pub open spec fn millis(nanos: u64) -> nat {
    (nanos / 1000000) as nat
}

/// The timing tab: only the total is measured.
pub open spec fn timing_text_of(e: TrafficEntryView) -> Seq<char> {
    "Local proxy connection: N/A\nDNS: N/A\nTCP connect: N/A\nTLS handshake: N/A\nRequest send: N/A\nFirst byte wait: N/A\nResponse download: N/A\nTotal: "@
        + text::decimal(millis(e.duration_nanos)) + "ms"@
}

/// The timing tab of an entry.
pub fn timing_text(entry: &TrafficEntry) -> (r: String)
    ensures
        r@ == timing_text_of(entry@),
{
    let mut out = text::to_owned(
        "Local proxy connection: N/A\nDNS: N/A\nTCP connect: N/A\nTLS handshake: N/A\nRequest send: N/A\nFirst byte wait: N/A\nResponse download: N/A\nTotal: ",
    );
    text::push_decimal(&mut out, entry.duration_nanos / 1000000);
    text::push_str(&mut out, "ms");
    out
}

/// A body as the raw tab shows it: its text when it is UTF-8, else hexadecimal.
pub open spec fn raw_body(bytes: Seq<u8>) -> Seq<char> {
    if vstd::utf8::valid_utf8(bytes) {
        vstd::utf8::decode_utf8(bytes)
    } else {
        hex_preview_of(bytes)
    }
}

fn push_raw_body(out: &mut String, body: &CapturedBody)
    ensures
        final(out)@ == old(out)@ + raw_body(body@.bytes),
{
    match body.text_preview() {
        Some(t) => text::push_str(out, t.as_str()),
        None => {
            let h = hex_preview(body.bytes.as_slice());
            text::push_str(out, h.as_str());
        },
    }
}

/// The raw tab: request line, headers and body, then the response's status, headers
/// and body.
pub open spec fn raw_text_of(e: TrafficEntryView) -> Seq<char> {
    e.method + " "@ + e.path + " "@ + e.http_version + "\n"@ + header_block(e.request_headers)
        + "\n"@ + raw_body(e.request_body.bytes) + "\n\n--- response ---\n"@ + "Status: "@
        + status_label_of(e.error, e.response_status) + "\n"@ + header_block(e.response_headers)
        + "\n"@ + raw_body(e.response_body.bytes)
}

/// The raw tab of an entry.
pub fn raw_text(entry: &TrafficEntry) -> (r: String)
    ensures
        r@ == raw_text_of(entry@),
{
    let mut out = entry.method.clone();
    text::push_str(&mut out, " ");
    text::push_str(&mut out, entry.path.as_str());
    text::push_str(&mut out, " ");
    text::push_str(&mut out, entry.http_version.as_str());
    text::push_str(&mut out, "\n");
    push_header_block(&mut out, &entry.request_headers);
    text::push_str(&mut out, "\n");
    push_raw_body(&mut out, &entry.request_body);
    text::push_str(&mut out, "\n\n--- response ---\n");
    text::push_str(&mut out, "Status: ");
    let label = entry.status_label();
    text::push_str(&mut out, label.as_str());
    text::push_str(&mut out, "\n");
    push_header_block(&mut out, &entry.response_headers);
    text::push_str(&mut out, "\n");
    push_raw_body(&mut out, &entry.response_body);
    out
}

/// A time `nanos` plus `extra_nanos` after the Unix epoch, as whole seconds and the
/// nanoseconds left over.
pub fn epoch_offset(nanos: u64, extra_nanos: u64) -> (r: (u64, u32))
    ensures
        r.1 < 1_000_000_000,
        r.0 * 1_000_000_000 + r.1 == nanos + extra_nanos,
{
    let a = nanos / 1_000_000_000;
    let b = extra_nanos / 1_000_000_000;
    let ra = nanos % 1_000_000_000;
    let rb = extra_nanos % 1_000_000_000;
    let rest = ra + rb;
    assert(a * 1_000_000_000 + ra == nanos) by (nonlinear_arith)
        requires
            a == nanos / 1_000_000_000,
            ra == nanos % 1_000_000_000,
    ;
    assert(b * 1_000_000_000 + rb == extra_nanos) by (nonlinear_arith)
        requires
            b == extra_nanos / 1_000_000_000,
            rb == extra_nanos % 1_000_000_000,
    ;
    assert(a <= u64::MAX / 1_000_000_000) by (nonlinear_arith)
        requires
            a == nanos / 1_000_000_000,
    ;
    assert(b <= u64::MAX / 1_000_000_000) by (nonlinear_arith)
        requires
            b == extra_nanos / 1_000_000_000,
    ;
    if rest >= 1_000_000_000 {
        ((a + b + 1), (rest - 1_000_000_000) as u32)
    } else {
        ((a + b), rest as u32)
    }
}

/// `Debug` text of the time `secs` seconds and `subsec_nanos` nanoseconds after the
/// Unix epoch, as `format!("{:?}", SystemTime)` writes it; the form depends on the
/// platform, so nothing is stated of it.
#[verifier::external_body]
pub(crate) fn time_debug_text(secs: u64, subsec_nanos: u32) -> String
    requires
        subsec_nanos < 1_000_000_000,
        secs <= 2 * (u64::MAX / 1_000_000_000) + 1,
{
    format!("{:?}", std::time::UNIX_EPOCH + std::time::Duration::new(secs, subsec_nanos))
}

/// The overview tab, given how the start and completion times are written: URL,
/// method, status, duration, sizes, content type, process, times and error, one per
/// line.
pub open spec fn overview_text_of(e: TrafficEntryView, started: Seq<char>, completed: Seq<char>) -> Seq<char> {
    let ct = match header_of(e.response_headers, "content-type"@) {
        Some(v) => v,
        None => or_na(header_of(e.request_headers, "content-type"@)),
    };
    let pid = match e.process_id {
        Some(p) => text::decimal(p as nat),
        None => na(),
    };
    text::join(
        seq![
            "URL: "@ + entry_url(e),
            "Method: "@ + e.method,
            "Status: "@ + status_label_of(e.error, e.response_status),
            "Duration: "@ + text::decimal(millis(e.duration_nanos)) + "ms"@,
            "Request size: "@ + size_label(e.request_size),
            "Response size: "@ + size_label(e.response_size),
            "Content-Type: "@ + ct,
            "Remote IP: N/A"@,
            "PID: "@ + pid,
            "Started: "@ + started,
            "Completed: "@ + completed,
            "Error: "@ + or_na(e.error),
        ],
        "\n"@,
    )
}

/// The overview tab of an entry, with its start and completion times written as
/// `started` and `completed`.
pub fn overview_text_with(entry: &TrafficEntry, started: &str, completed: &str) -> (r: String)
    ensures
        r@ == overview_text_of(entry@, started@, completed@),
{
    let ct = match header(entry.response_headers.as_slice(), "content-type") {
        Some(v) => v,
        None => match header(entry.request_headers.as_slice(), "content-type") {
            Some(v) => v,
            None => text::to_owned("N/A"),
        },
    };
    let mut lines: Vec<String> = Vec::new();
    let mut l = text::to_owned("URL: ");
    let url = entry.url();
    text::push_str(&mut l, url.as_str());
    lines.push(l);
    let mut l = text::to_owned("Method: ");
    text::push_str(&mut l, entry.method.as_str());
    lines.push(l);
    let mut l = text::to_owned("Status: ");
    let label = entry.status_label();
    text::push_str(&mut l, label.as_str());
    lines.push(l);
    let mut l = text::to_owned("Duration: ");
    text::push_decimal(&mut l, entry.duration_nanos / 1000000);
    text::push_str(&mut l, "ms");
    lines.push(l);
    let mut l = text::to_owned("Request size: ");
    let s = format_size(entry.request_size);
    text::push_str(&mut l, s.as_str());
    lines.push(l);
    let mut l = text::to_owned("Response size: ");
    let s = format_size(entry.response_size);
    text::push_str(&mut l, s.as_str());
    lines.push(l);
    let mut l = text::to_owned("Content-Type: ");
    text::push_str(&mut l, ct.as_str());
    lines.push(l);
    lines.push(text::to_owned("Remote IP: N/A"));
    let mut l = text::to_owned("PID: ");
    match entry.process_id {
        Some(p) => text::push_decimal(&mut l, p as u64),
        None => text::push_str(&mut l, "N/A"),
    }
    lines.push(l);
    let mut l = text::to_owned("Started: ");
    text::push_str(&mut l, started);
    lines.push(l);
    let mut l = text::to_owned("Completed: ");
    text::push_str(&mut l, completed);
    lines.push(l);
    let mut l = text::to_owned("Error: ");
    push_or_na(&mut l, &entry.error);
    lines.push(l);
    proof {
        assert(text::views(lines@) =~= seq![
            "URL: "@ + entry_url(entry@),
            "Method: "@ + entry@.method,
            "Status: "@ + status_label_of(entry@.error, entry@.response_status),
            "Duration: "@ + text::decimal(millis(entry@.duration_nanos)) + "ms"@,
            "Request size: "@ + size_label(entry@.request_size),
            "Response size: "@ + size_label(entry@.response_size),
            "Content-Type: "@ + ct@,
            "Remote IP: N/A"@,
            "PID: "@ + match entry@.process_id {
                Some(p) => text::decimal(p as nat),
                None => na(),
            },
            "Started: "@ + started@,
            "Completed: "@ + completed@,
            "Error: "@ + or_na(entry@.error),
        ]);
    }
    let r = text::join_strings(&lines, "\n");
    proof {
        let e = entry@;
        let spec_ct = match header_of(e.response_headers, "content-type"@) {
            Some(v) => v,
            None => or_na(header_of(e.request_headers, "content-type"@)),
        };
        assert(ct@ == spec_ct);
        let pid = match e.process_id {
            Some(p) => text::decimal(p as nat),
            None => na(),
        };
        let spec_lines = seq![
            "URL: "@ + entry_url(e),
            "Method: "@ + e.method,
            "Status: "@ + status_label_of(e.error, e.response_status),
            "Duration: "@ + text::decimal(millis(e.duration_nanos)) + "ms"@,
            "Request size: "@ + size_label(e.request_size),
            "Response size: "@ + size_label(e.response_size),
            "Content-Type: "@ + spec_ct,
            "Remote IP: N/A"@,
            "PID: "@ + pid,
            "Started: "@ + started@,
            "Completed: "@ + completed@,
            "Error: "@ + or_na(e.error),
        ];
        assert(text::views(lines@) == spec_lines);
        assert(overview_text_of(e, started@, completed@) == text::join(spec_lines, "\n"@));
    }
    r
}

/// The overview tab of an entry, its times written as `SystemTime`'s `Debug` writes
/// them on this platform.
pub fn overview_text(entry: &TrafficEntry) -> (r: String)
    ensures
        exists|started: Seq<char>, completed: Seq<char>|
            r@ == overview_text_of(entry@, started, completed),
{
    let (start_secs, start_sub) = epoch_offset(entry.started_at_nanos, 0);
    let (end_secs, end_sub) = epoch_offset(entry.started_at_nanos, entry.duration_nanos);
    let started = time_debug_text(start_secs, start_sub);
    let completed = time_debug_text(end_secs, end_sub);
    overview_text_with(entry, started.as_str(), completed.as_str())
}

} // verus!
