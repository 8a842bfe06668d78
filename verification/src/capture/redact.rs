//! Hiding secrets in captured traffic: sensitive headers, and sensitive fields of
//! JSON and form bodies.

use crate::capture::json::{
    json_redacted, json_view, lemma_redaction_hides_secrets, parse_json, parsed_json, pretty_bytes,
    pretty_json_bytes, redacted_marker, secrets_hidden, JsonValue, JsonView,
};
use crate::capture::model::{
    copy_opt_string, headers_view, opt_view, CapturedBody, CapturedBodyView, TrafficEntry,
    TrafficEntryView,
};
use crate::text;
use vstd::prelude::*;

verus! {

/// The headers that are redacted by default.
pub open spec fn default_headers() -> Seq<Seq<char>> {
    seq![
        "authorization"@,
        "proxy-authorization"@,
        "cookie"@,
        "set-cookie"@,
        "x-api-key"@,
    ]
}

/// The body fields that are redacted by default.
pub open spec fn default_fields() -> Seq<Seq<char>> {
    seq![
        "password"@,
        "passwd"@,
        "token"@,
        "access_token"@,
        "refresh_token"@,
        "secret"@,
        "api_key"@,
        "client_secret"@,
        "credit_card"@,
        "card_number"@,
        "cvv"@,
    ]
}

/// The model of a redaction configuration: the switches and the lower-case names of
/// the sensitive headers and fields.
pub struct RedactionModel {
    pub redact_body_fields: bool,
    pub show_secrets: bool,
    pub headers: Set<Seq<char>>,
    pub fields: Set<Seq<char>>,
}

/// Which headers and body fields are hidden, and whether anything is.
#[derive(Debug, Clone)]
pub struct RedactionConfig {
    pub redact_body_fields: bool,
    pub show_secrets: bool,
    headers: Vec<String>,
    fields: Vec<String>,
}

impl View for RedactionConfig {
    type V = RedactionModel;

    closed spec fn view(&self) -> RedactionModel {
        RedactionModel {
            redact_body_fields: self.redact_body_fields,
            show_secrets: self.show_secrets,
            headers: text::views(self.headers@).to_set(),
            fields: text::views(self.fields@).to_set(),
        }
    }
}

/// Whether a header's value is hidden: secrets are not shown and its name, in lower
/// case, is a sensitive header.
pub open spec fn header_hidden(c: RedactionModel, name: Seq<char>) -> bool {
    !c.show_secrets && c.headers.contains(text::lower(name))
}

/// Whether a body field's value is hidden: secrets are not shown, body fields are
/// redacted and its name, in lower case, is a sensitive field.
pub open spec fn field_hidden(c: RedactionModel, name: Seq<char>) -> bool {
    !c.show_secrets && c.redact_body_fields && c.fields.contains(text::lower(name))
}

/// Whether a list of strings holds `s`.
fn holds(v: &Vec<String>, s: &str) -> (r: bool)
    ensures
        r == text::views(v@).to_set().contains(s@),
{
    let mut i: usize = 0;
    while i < v.len()
        invariant
            0 <= i <= v@.len(),
            forall|j: int| 0 <= j < i ==> v@[j]@ != s@,
        decreases v.len() - i,
    {
        if text::str_eq(v[i].as_str(), s) {
            proof {
                assert(text::views(v@)[i as int] == s@);
                assert(text::views(v@).contains(s@));
            }
            return true;
        }
        i = i + 1;
    }
    proof {
        if text::views(v@).contains(s@) {
            let j = choose|j: int| 0 <= j < text::views(v@).len() && text::views(v@)[j] == s@;
            assert(v@[j]@ == s@);
        }
    }
    false
}

/// Adds `s` to a list unless it is there already.
fn insert_unique(v: &mut Vec<String>, s: String)
    ensures
        text::views(final(v)@).to_set() == text::views(old(v)@).to_set().insert(s@),
{
    if !holds(v, s.as_str()) {
        let ghost before = v@;
        v.push(s);
        proof {
            assert(text::views(v@) =~= text::views(before).push(s@));
            text::views(before).lemma_push_to_set_commute(s@);
            assert(text::views(v@).to_set() =~= text::views(before).to_set().insert(s@));
        }
    } else {
        proof {
            assert(text::views(v@).to_set() =~= text::views(v@).to_set().insert(s@));
        }
    }
}

fn list_of(names: &[&str]) -> (r: Vec<String>)
    ensures
        text::views(r@) == names@.map_values(|n: &str| n@),
{
    let mut r: Vec<String> = Vec::new();
    let mut i: usize = 0;
    while i < names.len()
        invariant
            0 <= i <= names@.len(),
            text::views(r@) =~= names@.take(i as int).map_values(|n: &str| n@),
        decreases names.len() - i,
    {
        let ghost before = r@;
        r.push(text::to_owned(names[i]));
        proof {
            assert(text::views(r@) =~= text::views(before).push(names@[i as int]@));
            assert(names@.take(i + 1) =~= names@.take(i as int).push(names@[i as int]));
        }
        i = i + 1;
    }
    proof {
        assert(names@.take(names@.len() as int) =~= names@);
    }
    r
}

impl RedactionConfig {
    /// The default sensitive headers and fields, with the two switches.
    pub fn new(redact_body_fields: bool, show_secrets: bool) -> (r: Self)
        ensures
            r@.redact_body_fields == redact_body_fields,
            r@.show_secrets == show_secrets,
            r@.headers == default_headers().to_set(),
            r@.fields == default_fields().to_set(),
    {
        let header_names: [&str; 5] = ["authorization", "proxy-authorization", "cookie", "set-cookie", "x-api-key"];
        let field_names: [&str; 11] = [
            "password",
            "passwd",
            "token",
            "access_token",
            "refresh_token",
            "secret",
            "api_key",
            "client_secret",
            "credit_card",
            "card_number",
            "cvv",
        ];
        let headers = list_of(header_names.as_slice());
        let fields = list_of(field_names.as_slice());
        proof {
            assert(text::views(headers@) =~= default_headers());
            assert(text::views(fields@) =~= default_fields());
        }
        RedactionConfig { redact_body_fields, show_secrets, headers, fields }
    }

    /// Adds a sensitive header, by its lower-case name.
    pub fn add_header(&mut self, header: String)
        ensures
            final(self)@ == (RedactionModel {
                headers: old(self)@.headers.insert(text::lower(header@)),
                ..old(self)@
            }),
    {
        let lower = text::to_lower(header.as_str());
        insert_unique(&mut self.headers, lower);
    }

    /// Adds a sensitive body field, by its lower-case name.
    pub fn add_field(&mut self, field: String)
        ensures
            final(self)@ == (RedactionModel {
                fields: old(self)@.fields.insert(text::lower(field@)),
                ..old(self)@
            }),
    {
        let lower = text::to_lower(field.as_str());
        insert_unique(&mut self.fields, lower);
    }

    /// Whether a header's value is hidden.
    pub fn should_redact_header(&self, name: &str) -> (r: bool)
        ensures
            r == header_hidden(self@, name@),
    {
        if self.show_secrets {
            return false;
        }
        let lower = text::to_lower(name);
        holds(&self.headers, lower.as_str())
    }

    /// Whether a body field's value is hidden.
    pub fn should_redact_field(&self, name: &str) -> (r: bool)
        ensures
            r == field_hidden(self@, name@),
    {
        if self.show_secrets || !self.redact_body_fields {
            return false;
        }
        let lower = text::to_lower(name);
        holds(&self.fields, lower.as_str())
    }
}

/// A header as the redacted copy shows it.
pub open spec fn redacted_header(c: RedactionModel, h: (Seq<char>, Seq<char>)) -> (Seq<char>, Seq<char>) {
    if header_hidden(c, h.0) {
        (h.0, redacted_marker())
    } else {
        h
    }
}

/// The headers with every sensitive value replaced by `<redacted>`.
pub open spec fn redacted_headers(c: RedactionModel, h: Seq<(Seq<char>, Seq<char>)>) -> Seq<(Seq<char>, Seq<char>)> {
    h.map_values(|p: (Seq<char>, Seq<char>)| redacted_header(c, p))
}

/// A copy of the headers with every sensitive header's value replaced by `<redacted>`.
pub fn redact_headers(headers: &[(String, String)], config: &RedactionConfig) -> (r: Vec<(String, String)>)
    ensures
        headers_view(r@) == redacted_headers(config@, headers_view(headers@)),
{
    let mut r: Vec<(String, String)> = Vec::new();
    let mut i: usize = 0;
    while i < headers.len()
        invariant
            0 <= i <= headers@.len(),
            headers_view(r@) =~= redacted_headers(config@, headers_view(headers@.take(i as int))),
        decreases headers.len() - i,
    {
        let name = headers[i].0.clone();
        let value = if config.should_redact_header(headers[i].0.as_str()) {
            text::to_owned("<redacted>")
        } else {
            headers[i].1.clone()
        };
        let ghost before = r@;
        r.push((name, value));
        proof {
            reveal_strlit("<redacted>");
            assert(headers@.take(i + 1) =~= headers@.take(i as int).push(headers@[i as int]));
            assert(headers_view(r@) =~= headers_view(before).push((name@, value@)));
        }
        i = i + 1;
    }
    proof {
        assert(headers@.take(headers@.len() as int) =~= headers@);
    }
    r
}

/// The name of the pairs that `url::form_urlencoded::parse` decodes from form bytes.
pub uninterp spec fn form_pairs(bytes: Seq<u8>) -> Seq<(Seq<char>, Seq<char>)>;

/// The name of the text that `url::form_urlencoded::Serializer` writes for pairs.
pub uninterp spec fn form_serialized(pairs: Seq<(Seq<char>, Seq<char>)>) -> Seq<char>;

/// Decodes form-encoded bytes into pairs with `url::form_urlencoded::parse`.
#[verifier::external_body]
fn parse_form(bytes: &[u8]) -> (r: Vec<(String, String)>)
    ensures
        headers_view(r@) == form_pairs(bytes@),
{
    url::form_urlencoded::parse(bytes).map(|(k, v)| (k.into_owned(), v.into_owned())).collect()
}

/// Encodes pairs with `url::form_urlencoded::Serializer::append_pair` and `finish`.
#[verifier::external_body]
fn serialize_form(pairs: &Vec<(String, String)>) -> (r: String)
    ensures
        r@ == form_serialized(headers_view(pairs@)),
{
    let mut encoded = url::form_urlencoded::Serializer::new(String::new());
    for (key, value) in pairs {
        encoded.append_pair(key, value);
    }
    encoded.finish()
}

/// Copies a serde number, by `serde_json::Number::clone`, which keeps the value.
#[verifier::external_body]
fn copy_number(n: &serde_json::Number) -> (r: serde_json::Number)
    ensures
        r == *n,
{
    n.clone()
}

/// A copy of a JSON document in which the value of every member whose key is a
/// sensitive field is the string `<redacted>`.
pub fn redact_json(v: &JsonValue, config: &RedactionConfig) -> (r: JsonValue)
    ensures
        json_view(r) == json_redacted(json_view(*v), |k: Seq<char>| field_hidden(config@, k)),
    decreases v,
{
    let ghost f = |k: Seq<char>| field_hidden(config@, k);
    match v {
        JsonValue::Null => JsonValue::Null,
        JsonValue::Bool(b) => JsonValue::Bool(*b),
        JsonValue::Number(n) => JsonValue::Number(copy_number(n)),
        JsonValue::Str(s) => JsonValue::Str(s.clone()),
        JsonValue::Array(xs) => {
            let mut ys: Vec<JsonValue> = Vec::new();
            let mut i: usize = 0;
            while i < xs.len()
                invariant
                    *v == JsonValue::Array(*xs),
                    f == (|k: Seq<char>| field_hidden(config@, k)),
                    0 <= i <= xs@.len(),
                    ys@.len() == i,
                    forall|j: int|
                        0 <= j < i ==> json_view(#[trigger] ys@[j]) == json_redacted(json_view(xs@[j]), f),
                decreases xs.len() - i,
            {
                proof {
                    assert(decreases_to!(*v => (*v)->Array_0));
                    assert((*v)->Array_0 == *xs);
                    assert(decreases_to!(*xs => xs[i as int]));
                }
                let y = redact_json(&xs[i], config);
                ys.push(y);
                i = i + 1;
            }
            let r = JsonValue::Array(ys);
            proof {
                let inner = Seq::new(
                    xs@.len(),
                    |i: int|
                        if 0 <= i < xs@.len() {
                            json_view(xs@[i])
                        } else {
                            JsonView::Null
                        },
                );
                assert(json_view(*v) == JsonView::Array(inner)) by {
                    assert(json_view(*v)->Array_0 =~= inner);
                }
                let a = Seq::new(
                    ys@.len(),
                    |i: int|
                        if 0 <= i < ys@.len() {
                            json_view(ys@[i])
                        } else {
                            JsonView::Null
                        },
                );
                let b = Seq::new(
                    inner.len(),
                    |i: int|
                        if 0 <= i < inner.len() {
                            json_redacted(inner[i], f)
                        } else {
                            JsonView::Null
                        },
                );
                assert(a =~= b);
                assert(json_view(r) == JsonView::Array(a)) by {
                    assert(json_view(r)->Array_0 =~= a);
                }
                assert(json_redacted(json_view(*v), f) == JsonView::Array(b)) by {
                    assert(json_redacted(json_view(*v), f)->Array_0 =~= b);
                }
            }
            r
        },
        JsonValue::Object(es) => {
            let mut fs: Vec<(String, JsonValue)> = Vec::new();
            let mut i: usize = 0;
            while i < es.len()
                invariant
                    *v == JsonValue::Object(*es),
                    f == (|k: Seq<char>| field_hidden(config@, k)),
                    0 <= i <= es@.len(),
                    fs@.len() == i,
                    forall|j: int|
                        0 <= j < i ==> {
                            &&& (#[trigger] fs@[j]).0@ == es@[j].0@
                            &&& json_view(fs@[j].1) == if f(es@[j].0@) {
                                JsonView::Str(redacted_marker())
                            } else {
                                json_redacted(json_view(es@[j].1), f)
                            }
                        },
                decreases es.len() - i,
            {
                let key = es[i].0.clone();
                let child = if config.should_redact_field(es[i].0.as_str()) {
                    proof {
                        reveal_strlit("<redacted>");
                    }
                    JsonValue::Str(text::to_owned("<redacted>"))
                } else {
                    proof {
                        assert(decreases_to!(*v => (*v)->Object_0));
                        assert((*v)->Object_0 == *es);
                        assert(decreases_to!(*es => es[i as int]));
                        assert(decreases_to!(es[i as int] => es[i as int].1));
                    }
                    redact_json(&es[i].1, config)
                };
                fs.push((key, child));
                i = i + 1;
            }
            let r = JsonValue::Object(fs);
            proof {
                let inner = Seq::new(
                    es@.len(),
                    |i: int|
                        if 0 <= i < es@.len() {
                            (es@[i].0@, json_view(es@[i].1))
                        } else {
                            (Seq::<char>::empty(), JsonView::Null)
                        },
                );
                assert(json_view(*v) == JsonView::Object(inner)) by {
                    assert(json_view(*v)->Object_0 =~= inner);
                }
                let a = Seq::new(
                    fs@.len(),
                    |i: int|
                        if 0 <= i < fs@.len() {
                            (fs@[i].0@, json_view(fs@[i].1))
                        } else {
                            (Seq::<char>::empty(), JsonView::Null)
                        },
                );
                let b = Seq::new(
                    inner.len(),
                    |i: int|
                        if 0 <= i < inner.len() {
                            if f(inner[i].0) {
                                (inner[i].0, JsonView::Str(redacted_marker()))
                            } else {
                                (inner[i].0, json_redacted(inner[i].1, f))
                            }
                        } else {
                            (Seq::<char>::empty(), JsonView::Null)
                        },
                );
                assert(a =~= b);
                assert(json_view(r) == JsonView::Object(a)) by {
                    assert(json_view(r)->Object_0 =~= a);
                }
                assert(json_redacted(json_view(*v), f) == JsonView::Object(b)) by {
                    assert(json_redacted(json_view(*v), f)->Object_0 =~= b);
                }
            }
            r
        },
    }
}

/// The bytes of a string in UTF-8.
fn utf8_bytes(s: &str) -> (r: Vec<u8>)
    ensures
        r@ == vstd::utf8::encode_utf8(s@),
{
    let b = s.as_bytes();
    let mut r: Vec<u8> = Vec::new();
    let mut i: usize = 0;
    while i < b.len()
        invariant
            0 <= i <= b@.len(),
            r@ =~= b@.take(i as int),
        decreases b.len() - i,
    {
        r.push(b[i]);
        i = i + 1;
    }
    proof {
        assert(b@.take(b@.len() as int) =~= b@);
    }
    r
}

/// The lower-case content type of a body, empty when it has none.
pub open spec fn lower_content_type(b: CapturedBodyView) -> Seq<char> {
    text::lower(
        match b.content_type {
            Some(t) => t,
            None => Seq::empty(),
        },
    )
}

/// A form pair as the redacted copy shows it.
pub open spec fn redacted_pair(c: RedactionModel, p: (Seq<char>, Seq<char>)) -> (Seq<char>, Seq<char>) {
    if field_hidden(c, p.0) {
        (p.0, redacted_marker())
    } else {
        p
    }
}

/// `r` is `body` redacted: unchanged unless body fields are redacted and secrets
/// hidden; a JSON body that parses is written again, indented, with the sensitive
/// members' values replaced; otherwise a form body is written again with the
/// sensitive fields' values replaced; the new size is recorded as the decoded size.
pub open spec fn body_redacted(c: RedactionModel, body: CapturedBodyView, r: CapturedBodyView) -> bool {
    let ct = lower_content_type(body);
    if c.show_secrets || !c.redact_body_fields {
        r == body
    } else if text::contains(ct, "application/json"@) && parsed_json(body.bytes) is Some {
        let doc = json_redacted(parsed_json(body.bytes).unwrap(), |k: Seq<char>| field_hidden(c, k));
        r == CapturedBodyView {
            bytes: pretty_json_bytes(doc),
            decoded_size: Some(pretty_json_bytes(doc).len() as u64),
            ..body
        }
    } else if text::contains(ct, "application/x-www-form-urlencoded"@) {
        let encoded = vstd::utf8::encode_utf8(
            form_serialized(
                form_pairs(body.bytes).map_values(
                    |p: (Seq<char>, Seq<char>)| redacted_pair(c, p),
                ),
            ),
        );
        r == CapturedBodyView {
            bytes: encoded,
            decoded_size: Some(encoded.len() as u64),
            ..body
        }
    } else {
        r == body
    }
}

/// With body fields redacted and secrets hidden, a body whose content type names
/// `application/json` (whatever its case and parameters) and that parses as JSON is
/// written back as its document with every sensitive member's value `<redacted>`;
/// its size as captured stays.
pub proof fn lemma_json_body_hides_fields(c: RedactionModel, body: CapturedBodyView, r: CapturedBodyView, t: Seq<char>)
    requires
        body_redacted(c, body, r),
        c.redact_body_fields,
        !c.show_secrets,
        body.content_type == Some(t),
        text::contains(text::lower(t), "application/json"@),
        parsed_json(body.bytes) is Some,
    ensures
        r.bytes == pretty_json_bytes(
            json_redacted(parsed_json(body.bytes).unwrap(), |k: Seq<char>| field_hidden(c, k)),
        ),
        secrets_hidden(
            json_redacted(parsed_json(body.bytes).unwrap(), |k: Seq<char>| field_hidden(c, k)),
            |k: Seq<char>| field_hidden(c, k),
        ),
        r.original_size == body.original_size,
        r.content_type == body.content_type,
{
    lemma_redaction_hides_secrets(parsed_json(body.bytes).unwrap(), |k: Seq<char>| field_hidden(c, k));
}

/// A copy of a body with its sensitive fields hidden.
pub fn redact_body(body: &CapturedBody, config: &RedactionConfig) -> (r: CapturedBody)
    ensures
        body_redacted(config@, body@, r@),
{
    if config.show_secrets || !config.redact_body_fields {
        return body.copy();
    }
    let ct = match &body.content_type {
        Some(t) => text::to_lower(t.as_str()),
        None => String::new(),
    };
    proof {
        assert(ct@ == lower_content_type(body@));
    }
    if text::contains_str(ct.as_str(), "application/json") {
        match parse_json(body.bytes.as_slice()) {
            Some(doc) => {
                let red = redact_json(&doc, config);
                let bytes = pretty_bytes(&red);
                let mut r = body.copy();
                let n = bytes.len() as u64;
                r.bytes = bytes;
                r.decoded_size = Some(n);
                return r;
            },
            None => {},
        }
    }
    if text::contains_str(ct.as_str(), "application/x-www-form-urlencoded") {
        let pairs = parse_form(body.bytes.as_slice());
        let mut out: Vec<(String, String)> = Vec::new();
        let mut i: usize = 0;
        while i < pairs.len()
            invariant
                0 <= i <= pairs@.len(),
                headers_view(out@) =~= headers_view(pairs@).take(i as int).map_values(
                    |p: (Seq<char>, Seq<char>)| redacted_pair(config@, p),
                ),
            decreases pairs.len() - i,
        {
            let key = pairs[i].0.clone();
            let value = if config.should_redact_field(pairs[i].0.as_str()) {
                text::to_owned("<redacted>")
            } else {
                pairs[i].1.clone()
            };
            let ghost before = out@;
            out.push((key, value));
            proof {
                reveal_strlit("<redacted>");
                assert(headers_view(out@) =~= headers_view(before).push((key@, value@)));
                assert(headers_view(pairs@).take(i + 1) =~= headers_view(pairs@).take(i as int).push(
                    headers_view(pairs@)[i as int],
                ));
            }
            i = i + 1;
        }
        proof {
            assert(headers_view(pairs@).take(pairs@.len() as int) =~= headers_view(pairs@));
        }
        let encoded = serialize_form(&out);
        let bytes = utf8_bytes(encoded.as_str());
        let mut r = body.copy();
        let n = bytes.len() as u64;
        r.bytes = bytes;
        r.decoded_size = Some(n);
        return r;
    }
    body.copy()
}

/// `r` is the entry with its headers and bodies redacted.
pub open spec fn entry_redacted(c: RedactionModel, e: TrafficEntryView, r: TrafficEntryView) -> bool {
    &&& r.request_headers == redacted_headers(c, e.request_headers)
    &&& r.response_headers == redacted_headers(c, e.response_headers)
    &&& body_redacted(c, e.request_body, r.request_body)
    &&& body_redacted(c, e.response_body, r.response_body)
    &&& r == TrafficEntryView {
        request_headers: r.request_headers,
        response_headers: r.response_headers,
        request_body: r.request_body,
        response_body: r.response_body,
        ..e
    }
}

/// A copy of an entry with its sensitive headers and body fields hidden.
pub fn redacted_entry(entry: &TrafficEntry, config: &RedactionConfig) -> (r: TrafficEntry)
    ensures
        entry_redacted(config@, entry@, r@),
{
    let mut copy = entry.copy();
    copy.request_headers = redact_headers(entry.request_headers.as_slice(), config);
    copy.response_headers = redact_headers(entry.response_headers.as_slice(), config);
    copy.request_body = redact_body(&entry.request_body, config);
    copy.response_body = redact_body(&entry.response_body, config);
    copy
}

/// With secrets shown, redaction changes nothing.
pub proof fn lemma_show_secrets_keeps_headers(c: RedactionModel, h: Seq<(Seq<char>, Seq<char>)>)
    requires
        c.show_secrets,
    ensures
        redacted_headers(c, h) == h,
{
    assert(redacted_headers(c, h) =~= h);
}

/// After redaction no sensitive header keeps its value: each one reads `<redacted>`,
/// and every other header is unchanged.
pub proof fn lemma_redacted_headers_hide_secrets(c: RedactionModel, h: Seq<(Seq<char>, Seq<char>)>, i: int)
    requires
        0 <= i < h.len(),
    ensures
        redacted_headers(c, h).len() == h.len(),
        redacted_headers(c, h)[i].0 == h[i].0,
        header_hidden(c, h[i].0) ==> redacted_headers(c, h)[i].1 == redacted_marker(),
        !header_hidden(c, h[i].0) ==> redacted_headers(c, h)[i].1 == h[i].1,
{
}

/// Redacting twice gives what redacting once gives.
pub proof fn lemma_redact_headers_idempotent(c: RedactionModel, h: Seq<(Seq<char>, Seq<char>)>)
    ensures
        redacted_headers(c, redacted_headers(c, h)) == redacted_headers(c, h),
{
    assert(redacted_headers(c, redacted_headers(c, h)) =~= redacted_headers(c, h));
}

/// The configuration after adding sensitive headers one after another.
pub open spec fn with_headers(c: RedactionModel, names: Seq<Seq<char>>) -> RedactionModel
    decreases names.len(),
{
    if names.len() == 0 {
        c
    } else {
        let d = with_headers(c, names.drop_last());
        RedactionModel { headers: d.headers.insert(text::lower(names.last())), ..d }
    }
}

/// The configuration after adding sensitive body fields one after another.
pub open spec fn with_fields(c: RedactionModel, names: Seq<Seq<char>>) -> RedactionModel
    decreases names.len(),
{
    if names.len() == 0 {
        c
    } else {
        let d = with_fields(c, names.drop_last());
        RedactionModel { fields: d.fields.insert(text::lower(names.last())), ..d }
    }
}

proof fn lemma_with_headers(c: RedactionModel, names: Seq<Seq<char>>, y: Seq<char>)
    ensures
        with_headers(c, names).show_secrets == c.show_secrets,
        with_headers(c, names).redact_body_fields == c.redact_body_fields,
        with_headers(c, names).fields == c.fields,
        with_headers(c, names).headers.contains(y) == (c.headers.contains(y) || exists|i: int|
            0 <= i < names.len() && text::lower(#[trigger] names[i]) == y),
    decreases names.len(),
{
    if names.len() > 0 {
        let p = names.drop_last();
        lemma_with_headers(c, p, y);
        if exists|i: int| 0 <= i < p.len() && text::lower(#[trigger] p[i]) == y {
            let i = choose|i: int| 0 <= i < p.len() && text::lower(#[trigger] p[i]) == y;
            assert(names[i] == p[i]);
        }
        if exists|i: int| 0 <= i < names.len() && text::lower(#[trigger] names[i]) == y {
            let i = choose|i: int| 0 <= i < names.len() && text::lower(#[trigger] names[i]) == y;
            if i < p.len() {
                assert(p[i] == names[i]);
            }
        }
    }
}

proof fn lemma_with_fields(c: RedactionModel, names: Seq<Seq<char>>, y: Seq<char>)
    ensures
        with_fields(c, names).show_secrets == c.show_secrets,
        with_fields(c, names).redact_body_fields == c.redact_body_fields,
        with_fields(c, names).headers == c.headers,
        with_fields(c, names).fields.contains(y) == (c.fields.contains(y) || exists|i: int|
            0 <= i < names.len() && text::lower(#[trigger] names[i]) == y),
    decreases names.len(),
{
    if names.len() > 0 {
        let p = names.drop_last();
        lemma_with_fields(c, p, y);
        if exists|i: int| 0 <= i < p.len() && text::lower(#[trigger] p[i]) == y {
            let i = choose|i: int| 0 <= i < p.len() && text::lower(#[trigger] p[i]) == y;
            assert(names[i] == p[i]);
        }
        if exists|i: int| 0 <= i < names.len() && text::lower(#[trigger] names[i]) == y {
            let i = choose|i: int| 0 <= i < names.len() && text::lower(#[trigger] names[i]) == y;
            if i < p.len() {
                assert(p[i] == names[i]);
            }
        }
    }
}

/// After a configuration made with the default lists has had headers added, a header
/// is hidden exactly when secrets are not shown and its lower-cased name is a default
/// sensitive header or the lower-cased name of one added; with secrets shown every
/// header is visible.
pub proof fn lemma_added_headers_hidden(c: RedactionModel, names: Seq<Seq<char>>, name: Seq<char>)
    requires
        c.headers == default_headers().to_set(),
    ensures
        header_hidden(with_headers(c, names), name) == (!c.show_secrets && (default_headers().contains(
            text::lower(name),
        ) || exists|i: int| 0 <= i < names.len() && text::lower(#[trigger] names[i]) == text::lower(name))),
{
    lemma_with_headers(c, names, text::lower(name));
}

/// After a configuration made with the default lists has had body fields added, a
/// field is hidden exactly when body fields are redacted, secrets are not shown, and
/// its lower-cased name is a default sensitive field or the lower-cased name of one
/// added.
pub proof fn lemma_added_fields_hidden(c: RedactionModel, names: Seq<Seq<char>>, name: Seq<char>)
    requires
        c.fields == default_fields().to_set(),
    ensures
        field_hidden(with_fields(c, names), name) == (c.redact_body_fields && !c.show_secrets && (
        default_fields().contains(text::lower(name)) || exists|i: int|
            0 <= i < names.len() && text::lower(#[trigger] names[i]) == text::lower(name))),
{
    lemma_with_fields(c, names, text::lower(name));
}

} // verus!
