//! JSON documents as the library reads them, parsed and printed by `serde_json`.

use crate::text;
use vstd::prelude::*;

verus! {

#[verifier::external_type_specification]
#[verifier::external_body]
pub struct ExJsonNumber(serde_json::Number);

#[verifier::external_type_specification]
#[verifier::external_body]
pub struct ExSerdeJsonValue(serde_json::Value);

/// A JSON document. Object members keep the order in which the parser gave them.
#[derive(Debug)]
pub enum JsonValue {
    Null,
    Bool(bool),
    Number(serde_json::Number),
    Str(String),
    Array(Vec<JsonValue>),
    Object(Vec<(String, JsonValue)>),
}

/// The model of a JSON document: its strings as texts and its arrays and objects as
/// sequences; numbers stay `serde_json` numbers.
pub enum JsonView {
    Null,
    Bool(bool),
    Number(serde_json::Number),
    Str(Seq<char>),
    Array(Seq<JsonView>),
    Object(Seq<(Seq<char>, JsonView)>),
}

/// The model of a document.
pub open spec fn json_view(v: JsonValue) -> JsonView
    decreases v,
{
    match v {
        JsonValue::Null => JsonView::Null,
        JsonValue::Bool(b) => JsonView::Bool(b),
        JsonValue::Number(n) => JsonView::Number(n),
        JsonValue::Str(s) => JsonView::Str(s@),
        JsonValue::Array(xs) => JsonView::Array(
            Seq::new(
                xs@.len(),
                |i: int|
                    if 0 <= i < xs@.len() {
                        json_view(xs@[i])
                    } else {
                        JsonView::Null
                    },
            ),
        ),
        JsonValue::Object(es) => JsonView::Object(
            Seq::new(
                es@.len(),
                |i: int|
                    if 0 <= i < es@.len() {
                        (es@[i].0@, json_view(es@[i].1))
                    } else {
                        (Seq::empty(), JsonView::Null)
                    },
            ),
        ),
    }
}

/// The name of what `serde_json::from_slice::<serde_json::Value>` gives for bytes,
/// as a model: the document, or `None` when the bytes are not JSON.
pub uninterp spec fn parsed_json(bytes: Seq<u8>) -> Option<JsonView>;

/// The name of the bytes that `serde_json::to_vec_pretty` writes for a document.
pub uninterp spec fn pretty_json_bytes(v: JsonView) -> Seq<u8>;

/// The name of the text that `serde_json::to_string_pretty` writes for a document.
pub uninterp spec fn pretty_json_text(v: JsonView) -> Seq<char>;

/// Turns a `serde_json::Value` into a `JsonValue`, variant for variant.
#[verifier::external_body]
fn from_serde(v: serde_json::Value) -> JsonValue {
    match v {
        serde_json::Value::Null => JsonValue::Null,
        serde_json::Value::Bool(b) => JsonValue::Bool(b),
        serde_json::Value::Number(n) => JsonValue::Number(n),
        serde_json::Value::String(s) => JsonValue::Str(s),
        serde_json::Value::Array(a) => JsonValue::Array(a.into_iter().map(from_serde).collect()),
        serde_json::Value::Object(m) => JsonValue::Object(
            m.into_iter().map(|(k, x)| (k, from_serde(x))).collect(),
        ),
    }
}

/// Turns a `JsonValue` back into a `serde_json::Value`, variant for variant.
#[verifier::external_body]
fn to_serde(v: &JsonValue) -> serde_json::Value {
    match v {
        JsonValue::Null => serde_json::Value::Null,
        JsonValue::Bool(b) => serde_json::Value::Bool(*b),
        JsonValue::Number(n) => serde_json::Value::Number(n.clone()),
        JsonValue::Str(s) => serde_json::Value::String(s.clone()),
        JsonValue::Array(a) => serde_json::Value::Array(a.iter().map(to_serde).collect()),
        JsonValue::Object(m) => serde_json::Value::Object(
            m.iter().map(|(k, x)| (k.clone(), to_serde(x))).collect(),
        ),
    }
}

/// Parses JSON bytes with `serde_json::from_slice`; `None` when they are not JSON.
#[verifier::external_body]
pub(crate) fn parse_json(bytes: &[u8]) -> (r: Option<JsonValue>)
    ensures
        match r {
            Some(v) => parsed_json(bytes@) == Some(json_view(v)),
            None => parsed_json(bytes@) is None,
        },
{
    serde_json::from_slice::<serde_json::Value>(bytes).ok().map(from_serde)
}

/// Writes a document as indented JSON bytes with `serde_json::to_vec_pretty`, which
/// cannot fail on a document whose keys are strings.
#[verifier::external_body]
pub(crate) fn pretty_bytes(v: &JsonValue) -> (r: Vec<u8>)
    ensures
        r@ == pretty_json_bytes(json_view(*v)),
{
    serde_json::to_vec_pretty(&to_serde(v)).unwrap_or_default()
}

/// Writes a document as indented JSON text with `serde_json::to_string_pretty`.
#[verifier::external_body]
pub(crate) fn pretty_text(v: &JsonValue) -> (r: String)
    ensures
        r@ == pretty_json_text(json_view(*v)),
{
    serde_json::to_string_pretty(&to_serde(v)).unwrap_or_default()
}

/// The name of the number that `serde_json::Number::from` gives for a `u64`.
pub uninterp spec fn number_from_u64(n: u64) -> serde_json::Number;

/// The name of the number that `serde_json::Number::from` gives for an `i64`.
pub uninterp spec fn number_from_i64(n: i64) -> serde_json::Number;

/// The JSON number of a `u64`, by `serde_json::Number::from`.
#[verifier::external_body]
pub(crate) fn u64_number(n: u64) -> (r: serde_json::Number)
    ensures
        r == number_from_u64(n),
{
    serde_json::Number::from(n)
}

/// The JSON number of an `i64`, by `serde_json::Number::from`.
#[verifier::external_body]
pub(crate) fn i64_number(n: i64) -> (r: serde_json::Number)
    ensures
        r == number_from_i64(n),
{
    serde_json::Number::from(n)
}

/// A JSON array's model is the sequence of its items' models.
pub proof fn lemma_array_view(xs: Vec<JsonValue>, m: Seq<JsonView>)
    requires
        xs@.len() == m.len(),
        forall|i: int| 0 <= i < m.len() ==> json_view(#[trigger] xs@[i]) == m[i],
    ensures
        json_view(JsonValue::Array(xs)) == JsonView::Array(m),
{
    assert(json_view(JsonValue::Array(xs))->Array_0 =~= m);
}

/// A JSON object's model is the sequence of its members' keys and values' models.
pub proof fn lemma_object_view(es: Vec<(String, JsonValue)>, m: Seq<(Seq<char>, JsonView)>)
    requires
        es@.len() == m.len(),
        forall|i: int| 0 <= i < m.len() ==> (#[trigger] es@[i]).0@ == m[i].0 && json_view(es@[i].1) == m[i].1,
    ensures
        json_view(JsonValue::Object(es)) == JsonView::Object(m),
{
    assert(json_view(JsonValue::Object(es))->Object_0 =~= m);
}

/// The placeholder that replaces a secret.
pub open spec fn redacted_marker() -> Seq<char> {
    "<redacted>"@
}

/// The document with the value of every member whose key `secret` names replaced by
/// the string `<redacted>`, in objects at any depth, arrays included.
pub open spec fn json_redacted(v: JsonView, secret: spec_fn(Seq<char>) -> bool) -> JsonView
    decreases v,
{
    match v {
        JsonView::Array(xs) => JsonView::Array(
            Seq::new(
                xs.len(),
                |i: int|
                    if 0 <= i < xs.len() {
                        json_redacted(xs[i], secret)
                    } else {
                        JsonView::Null
                    },
            ),
        ),
        JsonView::Object(es) => JsonView::Object(
            Seq::new(
                es.len(),
                |i: int|
                    if 0 <= i < es.len() {
                        if secret(es[i].0) {
                            (es[i].0, JsonView::Str(redacted_marker()))
                        } else {
                            (es[i].0, json_redacted(es[i].1, secret))
                        }
                    } else {
                        (Seq::empty(), JsonView::Null)
                    },
            ),
        ),
        _ => v,
    }
}

/// No member that `secret` names shows its value: in objects at any depth, arrays
/// included, each such member's value is the string `<redacted>`.
pub open spec fn secrets_hidden(v: JsonView, secret: spec_fn(Seq<char>) -> bool) -> bool
    decreases v,
{
    match v {
        JsonView::Array(xs) => forall|i: int|
            0 <= i < xs.len() ==> secrets_hidden(#[trigger] xs[i], secret),
        JsonView::Object(es) => forall|i: int|
            0 <= i < es.len() ==> if secret((#[trigger] es[i]).0) {
                es[i].1 == JsonView::Str(redacted_marker())
            } else {
                secrets_hidden(es[i].1, secret)
            },
        _ => true,
    }
}

/// After redaction no secret member value is left in a document.
pub proof fn lemma_redaction_hides_secrets(v: JsonView, secret: spec_fn(Seq<char>) -> bool)
    ensures
        secrets_hidden(json_redacted(v, secret), secret),
    decreases v,
{
    match v {
        JsonView::Array(xs) => {
            let r = json_redacted(v, secret);
            assert forall|i: int| 0 <= i < xs.len() implies secrets_hidden(#[trigger] r->Array_0[i], secret) by {
                lemma_redaction_hides_secrets(xs[i], secret);
            }
        },
        JsonView::Object(es) => {
            let r = json_redacted(v, secret);
            assert forall|i: int| 0 <= i < es.len() implies if secret((#[trigger] r->Object_0[i]).0) {
                r->Object_0[i].1 == JsonView::Str(redacted_marker())
            } else {
                secrets_hidden(r->Object_0[i].1, secret)
            } by {
                lemma_redaction_hides_secrets(es[i].1, secret);
            }
        },
        _ => {},
    }
}

} // verus!
