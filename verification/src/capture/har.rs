//! The HAR 1.2 export of captured entries, as a JSON document.

use crate::capture::details::{epoch_offset, time_debug_text};
use crate::capture::json::{
    i64_number, json_view, lemma_array_view, lemma_object_view, number_from_i64, number_from_u64,
    pretty_bytes, pretty_json_bytes, redacted_marker, u64_number, JsonValue, JsonView,
};
use crate::capture::model::{entry_url, headers_view, status_label_of, TrafficEntry, TrafficEntryView};
use crate::capture::store::entries_view;
use crate::capture::redact::{
    header_hidden, redact_headers, redacted_headers, RedactionConfig, RedactionModel,
};
use crate::text;
use vstd::prelude::*;

verus! {

/// The version of this program that HAR files name as their creator.
pub const CREATOR_VERSION: &'static str = "0.1.0";

/// A count as a JSON number.
pub open spec fn count_json(n: u64) -> JsonView {
    JsonView::Number(number_from_u64(n))
}

/// The `-1` that HAR writes for a timing that was not measured.
pub open spec fn unknown_timing() -> JsonView {
    JsonView::Number(number_from_i64(-1i64))
}

/// Headers as HAR writes them: an array of objects with a `name` and a `value`.
pub open spec fn har_headers(h: Seq<(Seq<char>, Seq<char>)>) -> JsonView {
    JsonView::Array(
        h.map_values(
            |p: (Seq<char>, Seq<char>)|
                JsonView::Object(seq![("name"@, JsonView::Str(p.0)), ("value"@, JsonView::Str(p.1))]),
        ),
    )
}

/// The HAR request of an entry, its headers redacted.
pub open spec fn har_request(c: RedactionModel, e: TrafficEntryView) -> JsonView {
    JsonView::Object(
        seq![
            ("method"@, JsonView::Str(e.method)),
            ("url"@, JsonView::Str(entry_url(e))),
            ("httpVersion"@, JsonView::Str(e.http_version)),
            ("headers"@, har_headers(redacted_headers(c, e.request_headers))),
            ("bodySize"@, count_json(e.request_body.original_size)),
        ],
    )
}

/// The HAR response of an entry, its headers redacted: status `0` while there is
/// none, the status label as its text and `HTTP/1.1` as its version.
pub open spec fn har_response(c: RedactionModel, e: TrafficEntryView) -> JsonView {
    let status: u16 = match e.response_status {
        Some(s) => s,
        None => 0,
    };
    JsonView::Object(
        seq![
            ("status"@, count_json(status as u64)),
            ("statusText"@, JsonView::Str(status_label_of(e.error, e.response_status))),
            ("httpVersion"@, JsonView::Str("HTTP/1.1"@)),
            ("headers"@, har_headers(redacted_headers(c, e.response_headers))),
            ("bodySize"@, count_json(e.response_body.original_size)),
        ],
    )
}

/// The HAR entry of a captured entry whose start time is written `started`: the
/// duration in whole milliseconds, the request and response, an empty cache and
/// unmeasured timings.
pub open spec fn har_entry_of(c: RedactionModel, e: TrafficEntryView, started: Seq<char>) -> JsonView {
    JsonView::Object(
        seq![
            ("startedDateTime"@, JsonView::Str(started)),
            ("time"@, count_json(e.duration_nanos / 1_000_000)),
            ("request"@, har_request(c, e)),
            ("response"@, har_response(c, e)),
            ("cache"@, JsonView::Object(Seq::empty())),
            ("timings"@, JsonView::Object(
                seq![("send"@, unknown_timing()), ("wait"@, unknown_timing()), ("receive"@, unknown_timing())],
            )),
        ],
    )
}

/// The HAR 1.2 document of entries whose start times are written `started`, one per
/// entry, in order.
pub open spec fn har_log_of(c: RedactionModel, es: Seq<TrafficEntryView>, started: Seq<Seq<char>>) -> JsonView {
    JsonView::Object(
        seq![
            ("log"@, JsonView::Object(
                seq![
                    ("version"@, JsonView::Str("1.2"@)),
                    ("creator"@, JsonView::Object(
                        seq![("name"@, JsonView::Str("TLScope"@)), ("version"@, JsonView::Str(CREATOR_VERSION@))],
                    )),
                    ("entries"@, JsonView::Array(
                        Seq::new(es.len(), |i: int| har_entry_of(c, es[i], started[i])),
                    )),
                ],
            )),
        ],
    )
}

/// The `k`-th HAR entry of a document.
pub open spec fn har_entry_at(doc: JsonView, k: int) -> JsonView {
    doc->Object_0[0].1->Object_0[2].1->Array_0[k]
}

/// The `j`-th header of a HAR request or response object.
pub open spec fn har_header_at(message: JsonView, j: int) -> JsonView {
    message->Object_0[3].1->Array_0[j]
}

/// In the HAR document every header that redaction hides, in a request or a
/// response, keeps its name and shows `<redacted>` as its value; every other header
/// keeps its value.
pub proof fn lemma_har_hides_sensitive_headers(
    c: RedactionModel,
    es: Seq<TrafficEntryView>,
    started: Seq<Seq<char>>,
    k: int,
    j: int,
)
    requires
        0 <= k < es.len(),
    ensures
        0 <= j < es[k].request_headers.len() ==> har_header_at(
            har_entry_at(har_log_of(c, es, started), k)->Object_0[2].1,
            j,
        ) == JsonView::Object(
            seq![
                ("name"@, JsonView::Str(es[k].request_headers[j].0)),
                ("value"@, JsonView::Str(
                    if header_hidden(c, es[k].request_headers[j].0) {
                        redacted_marker()
                    } else {
                        es[k].request_headers[j].1
                    },
                )),
            ],
        ),
        0 <= j < es[k].response_headers.len() ==> har_header_at(
            har_entry_at(har_log_of(c, es, started), k)->Object_0[3].1,
            j,
        ) == JsonView::Object(
            seq![
                ("name"@, JsonView::Str(es[k].response_headers[j].0)),
                ("value"@, JsonView::Str(
                    if header_hidden(c, es[k].response_headers[j].0) {
                        redacted_marker()
                    } else {
                        es[k].response_headers[j].1
                    },
                )),
            ],
        ),
{
}

fn text_json(s: &str) -> (r: JsonValue)
    ensures
        json_view(r) == JsonView::Str(s@),
{
    JsonValue::Str(text::to_owned(s))
}

fn count_value(n: u64) -> (r: JsonValue)
    ensures
        json_view(r) == count_json(n),
{
    JsonValue::Number(u64_number(n))
}

fn unknown_timing_value() -> (r: JsonValue)
    ensures
        json_view(r) == unknown_timing(),
{
    JsonValue::Number(i64_number(-1))
}

fn member(key: &str, value: JsonValue) -> (r: (String, JsonValue))
    ensures
        r.0@ == key@,
        r.1 == value,
{
    (text::to_owned(key), value)
}

/// Headers as HAR writes them.
pub fn har_headers_value(headers: &[(String, String)]) -> (r: JsonValue)
    ensures
        json_view(r) == har_headers(headers_view(headers@)),
{
    let ghost m = har_headers(headers_view(headers@))->Array_0;
    let mut xs: Vec<JsonValue> = Vec::new();
    let mut i: usize = 0;
    while i < headers.len()
        invariant
            0 <= i <= headers@.len(),
            m == har_headers(headers_view(headers@))->Array_0,
            m.len() == headers@.len(),
            xs@.len() == i,
            forall|j: int| 0 <= j < i ==> json_view(#[trigger] xs@[j]) == m[j],
        decreases headers.len() - i,
    {
        let mut pair: Vec<(String, JsonValue)> = Vec::new();
        pair.push(member("name", text_json(headers[i].0.as_str())));
        pair.push(member("value", text_json(headers[i].1.as_str())));
        proof {
            let p = headers_view(headers@)[i as int];
            lemma_object_view(pair, seq![("name"@, JsonView::Str(p.0)), ("value"@, JsonView::Str(p.1))]);
        }
        xs.push(JsonValue::Object(pair));
        i = i + 1;
    }
    proof {
        lemma_array_view(xs, m);
    }
    JsonValue::Array(xs)
}

/// The HAR entry of a captured entry, its start time written `started`.
pub fn har_entry_with(entry: &TrafficEntry, redaction: &RedactionConfig, started: &str) -> (r: JsonValue)
    ensures
        json_view(r) == har_entry_of(redaction@, entry@, started@),
{
    let c = redaction;
    let e = entry;
    let request_headers = redact_headers(e.request_headers.as_slice(), c);
    let response_headers = redact_headers(e.response_headers.as_slice(), c);

    let mut request: Vec<(String, JsonValue)> = Vec::new();
    request.push(member("method", text_json(e.method.as_str())));
    let url = e.url();
    request.push(member("url", text_json(url.as_str())));
    request.push(member("httpVersion", text_json(e.http_version.as_str())));
    request.push(member("headers", har_headers_value(request_headers.as_slice())));
    request.push(member("bodySize", count_value(e.request_body.original_size)));
    proof {
        lemma_object_view(request, har_request(c@, e@)->Object_0);
    }

    let status: u16 = match e.response_status {
        Some(s) => s,
        None => 0,
    };
    let mut response: Vec<(String, JsonValue)> = Vec::new();
    response.push(member("status", count_value(status as u64)));
    let label = e.status_label();
    response.push(member("statusText", text_json(label.as_str())));
    response.push(member("httpVersion", text_json("HTTP/1.1")));
    response.push(member("headers", har_headers_value(response_headers.as_slice())));
    response.push(member("bodySize", count_value(e.response_body.original_size)));
    proof {
        lemma_object_view(response, har_response(c@, e@)->Object_0);
    }

    let mut timings: Vec<(String, JsonValue)> = Vec::new();
    timings.push(member("send", unknown_timing_value()));
    timings.push(member("wait", unknown_timing_value()));
    timings.push(member("receive", unknown_timing_value()));
    let cache: Vec<(String, JsonValue)> = Vec::new();
    proof {
        lemma_object_view(timings, har_entry_of(c@, e@, started@)->Object_0[5].1->Object_0);
        lemma_object_view(cache, Seq::empty());
    }

    let mut fields: Vec<(String, JsonValue)> = Vec::new();
    fields.push(member("startedDateTime", text_json(started)));
    fields.push(member("time", count_value(e.duration_nanos / 1_000_000)));
    fields.push(member("request", JsonValue::Object(request)));
    fields.push(member("response", JsonValue::Object(response)));
    fields.push(member("cache", JsonValue::Object(cache)));
    fields.push(member("timings", JsonValue::Object(timings)));
    proof {
        lemma_object_view(fields, har_entry_of(c@, e@, started@)->Object_0);
    }
    JsonValue::Object(fields)
}

/// The HAR 1.2 document of entries, the start time of each written by the same index
/// of `started`.
pub fn har_document_with(entries: &[TrafficEntry], redaction: &RedactionConfig, started: &[String]) -> (r: JsonValue)
    requires
        started@.len() == entries@.len(),
    ensures
        json_view(r) == har_log_of(
            redaction@,
            entries_view(entries@),
            started@.map_values(|s: String| s@),
        ),
{
    let ghost es = entries_view(entries@);
    let ghost ts = started@.map_values(|s: String| s@);
    let ghost all = har_log_of(redaction@, es, ts);
    let ghost m = all->Object_0[0].1->Object_0[2].1->Array_0;
    let mut xs: Vec<JsonValue> = Vec::new();
    let mut i: usize = 0;
    while i < entries.len()
        invariant
            0 <= i <= entries@.len(),
            started@.len() == entries@.len(),
            es == entries_view(entries@),
            ts == started@.map_values(|s: String| s@),
            all == har_log_of(redaction@, es, ts),
            m == all->Object_0[0].1->Object_0[2].1->Array_0,
            m.len() == entries@.len(),
            xs@.len() == i,
            forall|j: int| 0 <= j < i ==> json_view(#[trigger] xs@[j]) == m[j],
        decreases entries.len() - i,
    {
        let x = har_entry_with(&entries[i], redaction, started[i].as_str());
        xs.push(x);
        i = i + 1;
    }
    proof {
        lemma_array_view(xs, m);
    }
    let mut creator: Vec<(String, JsonValue)> = Vec::new();
    creator.push(member("name", text_json("TLScope")));
    creator.push(member("version", text_json(CREATOR_VERSION)));
    proof {
        lemma_object_view(creator, all->Object_0[0].1->Object_0[1].1->Object_0);
    }
    let mut log: Vec<(String, JsonValue)> = Vec::new();
    log.push(member("version", text_json("1.2")));
    log.push(member("creator", JsonValue::Object(creator)));
    log.push(member("entries", JsonValue::Array(xs)));
    proof {
        lemma_object_view(log, all->Object_0[0].1->Object_0);
    }
    let mut doc: Vec<(String, JsonValue)> = Vec::new();
    doc.push(member("log", JsonValue::Object(log)));
    proof {
        lemma_object_view(doc, all->Object_0);
    }
    JsonValue::Object(doc)
}

/// The HAR 1.2 document of entries, each start time written as `SystemTime`'s `Debug`
/// writes it on this platform.
pub fn har_document(entries: &[TrafficEntry], redaction: &RedactionConfig) -> (r: JsonValue)
    ensures
        exists|started: Seq<Seq<char>>|
            started.len() == entries@.len() && json_view(r) == #[trigger] har_log_of(
                redaction@,
                entries_view(entries@),
                started,
            ),
{
    let mut started: Vec<String> = Vec::new();
    let mut i: usize = 0;
    while i < entries.len()
        invariant
            0 <= i <= entries@.len(),
            started@.len() == i,
        decreases entries.len() - i,
    {
        let (secs, sub) = epoch_offset(entries[i].started_at_nanos, 0);
        started.push(time_debug_text(secs, sub));
        i = i + 1;
    }
    let r = har_document_with(entries, redaction, started.as_slice());
    proof {
        let ts = started@.map_values(|s: String| s@);
        assert(ts.len() == entries@.len());
    }
    r
}

/// The bytes of the HAR export: the document of `har_document`, pretty-printed by
/// `serde_json`.
pub fn har_bytes(entries: &[TrafficEntry], redaction: &RedactionConfig) -> (r: Vec<u8>)
    ensures
        exists|started: Seq<Seq<char>>|
            started.len() == entries@.len() && r@ == pretty_json_bytes(
                #[trigger] har_log_of(redaction@, entries_view(entries@), started),
            ),
{
    let doc = har_document(entries, redaction);
    pretty_bytes(&doc)
}

} // verus!
