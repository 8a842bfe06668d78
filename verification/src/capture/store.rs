//! The traffic store and the filter language over captured entries.

use crate::capture::model::{opt_view, TrafficEntry, TrafficEntryView};
use crate::text;
use vstd::prelude::*;

verus! {

/// A comparison operator of `status:` and `duration:` filters.
#[derive(Debug, Clone, Copy, PartialEq, Eq)]
pub enum Operator {
    Eq,
    Gt,
    Gte,
    Lt,
    Lte,
}

/// `actual op value`.
pub open spec fn compares(op: Operator, value: int, actual: int) -> bool {
    match op {
        Operator::Eq => actual == value,
        Operator::Gt => actual > value,
        Operator::Gte => actual >= value,
        Operator::Lt => actual < value,
        Operator::Lte => actual <= value,
    }
}

/// The model of one filter condition.
pub enum ConditionModel {
    Method(Seq<char>),
    Host(Seq<char>),
    Path(Seq<char>),
    Status(Operator, nat),
    ContentType(Seq<char>),
    HasRequestBody,
    HasResponseBody,
    Error(bool),
    Tls(bool),
    Duration(Operator, nat),
}

/// Splits a leading comparison operator off a filter value.
pub open spec fn operator_prefix(v: Seq<char>) -> (Operator, Seq<char>) {
    if text::starts_with(v, ">="@) {
        (Operator::Gte, v.skip(2))
    } else if text::starts_with(v, "<="@) {
        (Operator::Lte, v.skip(2))
    } else if text::starts_with(v, ">"@) {
        (Operator::Gt, v.skip(1))
    } else if text::starts_with(v, "<"@) {
        (Operator::Lt, v.skip(1))
    } else {
        (Operator::Eq, v)
    }
}

/// An error that quotes the value after a prefix.
pub open spec fn quoted(prefix: Seq<char>, v: Seq<char>) -> Seq<char> {
    prefix + v + "'"@
}

/// A duration such as `500ms`, `2s` or `750` (milliseconds), in nanoseconds.
pub open spec fn duration_value(raw: Seq<char>) -> Result<nat, Seq<char>> {
    let err = quoted("invalid duration '"@, raw);
    if text::ends_with(raw, "ms"@) {
        match text::parse_uint(raw.take(raw.len() - 2), u64::MAX as nat) {
            Some(n) => Ok(n * 1_000_000),
            None => Err(err),
        }
    } else if text::ends_with(raw, "s"@) {
        match text::parse_uint(raw.take(raw.len() - 1), u64::MAX as nat) {
            Some(n) => Ok(n * 1_000_000_000),
            None => Err(err),
        }
    } else {
        match text::parse_uint(raw, u64::MAX as nat) {
            Some(n) => Ok(n * 1_000_000),
            None => Err(err),
        }
    }
}

/// A duration written `<n>s` is `n` seconds, and one written `<n>ms` or as a bare
/// number is `n` milliseconds, in nanoseconds: so `<n>s` is the same duration as
/// `<1000 n>ms`.
pub proof fn lemma_duration_units(n: nat)
    requires
        n * 1000 <= u64::MAX,
    ensures
        duration_value(text::decimal(n) + "s"@) == Ok::<nat, Seq<char>>(n * 1_000_000_000),
        duration_value(text::decimal(n) + "ms"@) == Ok::<nat, Seq<char>>(n * 1_000_000),
        duration_value(text::decimal(n)) == Ok::<nat, Seq<char>>(n * 1_000_000),
        duration_value(text::decimal(n) + "s"@) == duration_value(text::decimal(n * 1000) + "ms"@),
{
    reveal_strlit("s");
    reveal_strlit("ms");
    lemma_unit_suffixes(n);
    lemma_unit_suffixes(n * 1000);
    assert(n * 1000 * 1_000_000 == n * 1_000_000_000);
}

proof fn lemma_unit_suffixes(n: nat)
    requires
        n <= u64::MAX,
    ensures
        duration_value(text::decimal(n) + "s"@) == Ok::<nat, Seq<char>>(n * 1_000_000_000),
        duration_value(text::decimal(n) + "ms"@) == Ok::<nat, Seq<char>>(n * 1_000_000),
        duration_value(text::decimal(n)) == Ok::<nat, Seq<char>>(n * 1_000_000),
{
    reveal_strlit("s");
    reveal_strlit("ms");
    text::lemma_decimal_reads_back(n);
    let d = text::decimal(n);
    assert(text::parse_uint(d, u64::MAX as nat) == Some(n));
    let ds = d + "s"@;
    let dms = d + "ms"@;
    assert(ds.skip(ds.len() - 1) =~= "s"@);
    assert(ds.take(ds.len() - 1) =~= d);
    assert(ds[ds.len() - 2] == d.last());
    assert(!text::ends_with(ds, "ms"@)) by {
        if text::ends_with(ds, "ms"@) {
            assert(ds.skip(ds.len() - 2)[0] == ds[ds.len() - 2]);
        }
    }
    assert(dms.skip(dms.len() - 2) =~= "ms"@);
    assert(dms.take(dms.len() - 2) =~= d);
    assert(!text::ends_with(d, "ms"@)) by {
        if text::ends_with(d, "ms"@) {
            assert(d.skip(d.len() - 2)[1] == d.last());
        }
    }
    assert(!text::ends_with(d, "s"@)) by {
        if text::ends_with(d, "s"@) {
            assert(d.skip(d.len() - 1)[0] == d.last());
        }
    }
}

/// A `true` or `false` filter value.
pub open spec fn bool_value(v: Seq<char>) -> Result<bool, Seq<char>> {
    if v == "true"@ {
        Ok(true)
    } else if v == "false"@ {
        Ok(false)
    } else {
        Err(quoted("expected true or false, got '"@, v))
    }
}

/// The condition that one `key:value` token denotes, or the error it is rejected with.
pub open spec fn parse_token(tok: Seq<char>) -> Result<ConditionModel, Seq<char>> {
    match text::split_once(tok, ':') {
        None => Err(quoted("invalid filter token '"@, tok)),
        Some((key, value)) => {
            if key == "method"@ {
                Ok(ConditionModel::Method(text::upper(value)))
            } else if key == "host"@ {
                Ok(ConditionModel::Host(text::lower(value)))
            } else if key == "path"@ {
                Ok(ConditionModel::Path(value))
            } else if key == "status"@ {
                let (op, raw) = operator_prefix(value);
                match text::parse_uint(raw, u16::MAX as nat) {
                    Some(n) => Ok(ConditionModel::Status(op, n)),
                    None => Err(quoted("invalid status code '"@, raw)),
                }
            } else if key == "type"@ {
                Ok(ConditionModel::ContentType(text::lower(value)))
            } else if key == "has"@ {
                if value == "request-body"@ {
                    Ok(ConditionModel::HasRequestBody)
                } else if value == "response-body"@ {
                    Ok(ConditionModel::HasResponseBody)
                } else {
                    Err("unsupported has:"@ + value)
                }
            } else if key == "error"@ {
                match bool_value(value) {
                    Ok(b) => Ok(ConditionModel::Error(b)),
                    Err(e) => Err(e),
                }
            } else if key == "tls"@ {
                match bool_value(value) {
                    Ok(b) => Ok(ConditionModel::Tls(b)),
                    Err(e) => Err(e),
                }
            } else if key == "duration"@ {
                let (op, raw) = operator_prefix(value);
                match duration_value(raw) {
                    Ok(n) => Ok(ConditionModel::Duration(op, n)),
                    Err(e) => Err(e),
                }
            } else {
                Err(quoted("unsupported filter key '"@, key))
            }
        },
    }
}

/// Parses tokens in order; the first rejected token decides the error.
pub open spec fn parse_tokens(toks: Seq<Seq<char>>) -> Result<Seq<ConditionModel>, Seq<char>>
    decreases toks.len(),
{
    if toks.len() == 0 {
        Ok(seq![])
    } else {
        match parse_token(toks[0]) {
            Err(e) => Err(e),
            Ok(c) => match parse_tokens(toks.drop_first()) {
                Ok(cs) => Ok(seq![c] + cs),
                Err(e) => Err(e),
            },
        }
    }
}

/// The filter that a text denotes: one condition per whitespace-separated token.
pub open spec fn parse_filter(s: Seq<char>) -> Result<Seq<ConditionModel>, Seq<char>> {
    parse_tokens(text::words(s))
}

/// Whether an entry satisfies one condition.
pub open spec fn condition_holds(c: ConditionModel, e: TrafficEntryView) -> bool {
    match c {
        ConditionModel::Method(m) => text::eq_ignore_case(e.method, m),
        ConditionModel::Host(h) => text::contains(text::lower(e.host), h),
        ConditionModel::Path(p) => text::contains(e.path, p),
        ConditionModel::Status(op, v) => match e.response_status {
            Some(s) => compares(op, v as int, s as int),
            None => false,
        },
        ConditionModel::ContentType(k) => text::contains(
            text::lower(content_type_text(e.request_body.content_type)),
            k,
        ) || text::contains(text::lower(content_type_text(e.response_body.content_type)), k),
        ConditionModel::HasRequestBody => e.request_body.original_size > 0,
        ConditionModel::HasResponseBody => e.response_body.original_size > 0,
        ConditionModel::Error(b) => (e.error is Some) == b,
        ConditionModel::Tls(b) => (e.tls is Some) == b,
        ConditionModel::Duration(op, v) => compares(op, v as int, e.duration_nanos as int),
    }
}

/// The content type, or the empty text when there is none.
pub open spec fn content_type_text(ct: Option<Seq<char>>) -> Seq<char> {
    match ct {
        Some(c) => c,
        None => Seq::empty(),
    }
}

/// Whether an entry satisfies every condition.
pub open spec fn filter_holds(cs: Seq<ConditionModel>, e: TrafficEntryView) -> bool {
    forall|i: int| 0 <= i < cs.len() ==> condition_holds(#[trigger] cs[i], e)
}

/// Conditions combine with logical AND: an entry satisfies two lists of conditions
/// together exactly when it satisfies each list.
pub proof fn lemma_conditions_combine_with_and(a: Seq<ConditionModel>, b: Seq<ConditionModel>, e: TrafficEntryView)
    ensures
        filter_holds(a + b, e) == (filter_holds(a, e) && filter_holds(b, e)),
{
    if filter_holds(a + b, e) {
        assert forall|i: int| 0 <= i < a.len() implies condition_holds(#[trigger] a[i], e) by {
            assert((a + b)[i] == a[i]);
        }
        assert forall|i: int| 0 <= i < b.len() implies condition_holds(#[trigger] b[i], e) by {
            assert((a + b)[a.len() + i] == b[i]);
        }
    }
    if filter_holds(a, e) && filter_holds(b, e) {
        assert forall|i: int| 0 <= i < (a + b).len() implies condition_holds(#[trigger] (a + b)[i], e) by {
            if i < a.len() {
                assert((a + b)[i] == a[i]);
            } else {
                assert((a + b)[i] == b[i - a.len()]);
            }
        }
    }
}

/// The tokens of a filter parse one after another: tokens followed by more tokens
/// give the conditions of both, and the first token not understood decides the
/// error.
pub proof fn lemma_tokens_parse_in_sequence(x: Seq<Seq<char>>, y: Seq<Seq<char>>)
    ensures
        parse_tokens(x + y) == (match parse_tokens(x) {
            Ok(a) => match parse_tokens(y) {
                Ok(b) => Ok(a + b),
                Err(e) => Err(e),
            },
            Err(e) => Err(e),
        }),
    decreases x.len(),
{
    if x.len() == 0 {
        assert(x + y =~= y);
        match parse_tokens(y) {
            Ok(b) => {
                assert(Seq::<ConditionModel>::empty() + b =~= b);
            },
            Err(_) => {},
        }
    } else {
        assert((x + y)[0] == x[0]);
        assert((x + y).drop_first() =~= x.drop_first() + y);
        lemma_tokens_parse_in_sequence(x.drop_first(), y);
        match parse_token(x[0]) {
            Ok(c) => {
                match parse_tokens(x.drop_first()) {
                    Ok(a) => match parse_tokens(y) {
                        Ok(b) => {
                            assert(seq![c] + (a + b) =~= (seq![c] + a) + b);
                        },
                        Err(_) => {},
                    },
                    Err(_) => {},
                }
            },
            Err(_) => {},
        }
    }
}

proof fn lemma_filter_split(m: Seq<TrafficEntryView>)
    ensures
        m.filter(|e: TrafficEntryView| e.error is Some).len() + m.filter(|e: TrafficEntryView| e.error is None).len()
            == m.len(),
    decreases m.len(),
{
    reveal_with_fuel(Seq::<_>::filter, 1);
    if m.len() > 0 {
        lemma_filter_split(m.drop_last());
    }
}

/// The error count is what the filter `error:true` keeps, and what `error:false`
/// keeps is the rest: an entry satisfies the condition `error:true` stands for
/// exactly when it carries an error, and `error:false` exactly when it does not.
pub proof fn lemma_error_count_splits_entries(m: Seq<TrafficEntryView>)
    ensures
        m.filter(|e: TrafficEntryView| filter_holds(seq![ConditionModel::Error(true)], e)) == m.filter(
            |e: TrafficEntryView| e.error is Some,
        ),
        m.filter(|e: TrafficEntryView| filter_holds(seq![ConditionModel::Error(false)], e)).len() == m.len()
            - m.filter(|e: TrafficEntryView| e.error is Some).len(),
{
    let yes = |e: TrafficEntryView| filter_holds(seq![ConditionModel::Error(true)], e);
    let no = |e: TrafficEntryView| filter_holds(seq![ConditionModel::Error(false)], e);
    assert forall|e: TrafficEntryView| #[trigger] yes(e) == (e.error is Some) by {
        assert(seq![ConditionModel::Error(true)][0] == ConditionModel::Error(true));
    }
    assert forall|e: TrafficEntryView| #[trigger] no(e) == (e.error is None) by {
        assert(seq![ConditionModel::Error(false)][0] == ConditionModel::Error(false));
    }
    assert(yes =~= (|e: TrafficEntryView| e.error is Some));
    assert(no =~= (|e: TrafficEntryView| e.error is None));
    lemma_filter_split(m);
}

/// Filter texts joined by a space combine with logical AND: if each text parses, the
/// joined text parses to the conditions of both, and filtering by it keeps exactly the
/// entries that both keep, in order.
pub proof fn lemma_joined_filter_text(
    a: Seq<char>,
    b: Seq<char>,
    fa: Seq<ConditionModel>,
    fb: Seq<ConditionModel>,
    entries: Seq<TrafficEntryView>,
)
    requires
        parse_filter(a) == Ok::<Seq<ConditionModel>, Seq<char>>(fa),
        parse_filter(b) == Ok::<Seq<ConditionModel>, Seq<char>>(fb),
    ensures
        parse_filter(a + " "@ + b) == Ok::<Seq<ConditionModel>, Seq<char>>(fa + fb),
        entries.filter(|e: TrafficEntryView| filter_holds(fa + fb, e)) == entries.filter(
            |e: TrafficEntryView| filter_holds(fa, e) && filter_holds(fb, e),
        ),
{
    text::lemma_words_of_joined(a, b);
    lemma_tokens_parse_in_sequence(text::words(a), text::words(b));
    let both = |e: TrafficEntryView| filter_holds(fa + fb, e);
    let each = |e: TrafficEntryView| filter_holds(fa, e) && filter_holds(fb, e);
    assert forall|e: TrafficEntryView| #[trigger] both(e) == each(e) by {
        lemma_conditions_combine_with_and(fa, fb, e);
    }
    assert(both =~= each);
}

proof fn lemma_error_filter_text(t: Seq<char>, value: Seq<char>, b: bool)
    requires
        t == "error:"@ + value,
        value == (if b { "true"@ } else { "false"@ }),
    ensures
        parse_filter(t) == Ok::<Seq<ConditionModel>, Seq<char>>(seq![ConditionModel::Error(b)]),
{
    reveal_strlit("error:");
    reveal_strlit("error");
    reveal_strlit("true");
    reveal_strlit("false");
    reveal_strlit("method");
    reveal_strlit("host");
    reveal_strlit("path");
    reveal_strlit("status");
    reveal_strlit("type");
    reveal_strlit("has");
    assert forall|j: int| 0 <= j < t.len() implies !text::is_ws(#[trigger] t[j]) by {
        if j < 6 {
            assert(t[j] == "error:"@[j]);
        } else {
            assert(t[j] == value[j - 6]);
        }
    }
    text::lemma_single_word(t);
    assert forall|j: int| 0 <= j < 5 implies t[j] != ':' by {
        assert(t[j] == "error:"@[j]);
    }
    assert(t[5] == ':');
    text::lemma_find_at(t, ':', 5);
    assert(t.take(5) =~= "error"@);
    assert(t.skip(6) =~= value);
    assert(parse_token(t) == Ok::<ConditionModel, Seq<char>>(ConditionModel::Error(b)));
    assert(parse_tokens(seq![t].drop_first()) == Ok::<Seq<ConditionModel>, Seq<char>>(Seq::empty())) by {
        assert(seq![t].drop_first() =~= Seq::<Seq<char>>::empty());
    }
    assert(seq![ConditionModel::Error(b)] + Seq::<ConditionModel>::empty() =~= seq![ConditionModel::Error(b)]);
}

/// The filter texts `error:true` and `error:false` parse to the two error
/// conditions, so the entries `error:true` keeps are those with an error, which the
/// error count counts, and `error:false` keeps the rest.
pub proof fn lemma_error_filter_texts(m: Seq<TrafficEntryView>)
    ensures
        parse_filter("error:true"@) == Ok::<Seq<ConditionModel>, Seq<char>>(seq![ConditionModel::Error(true)]),
        parse_filter("error:false"@) == Ok::<Seq<ConditionModel>, Seq<char>>(seq![ConditionModel::Error(false)]),
        m.filter(|e: TrafficEntryView| filter_holds(seq![ConditionModel::Error(true)], e)) == m.filter(
            |e: TrafficEntryView| e.error is Some,
        ),
        m.filter(|e: TrafficEntryView| filter_holds(seq![ConditionModel::Error(false)], e)).len() == m.len()
            - m.filter(|e: TrafficEntryView| e.error is Some).len(),
{
    reveal_strlit("error:true");
    reveal_strlit("error:false");
    reveal_strlit("error:");
    reveal_strlit("true");
    reveal_strlit("false");
    assert("error:true"@ =~= "error:"@ + "true"@);
    assert("error:false"@ =~= "error:"@ + "false"@);
    lemma_error_filter_text("error:true"@, "true"@, true);
    lemma_error_filter_text("error:false"@, "false"@, false);
    lemma_error_count_splits_entries(m);
}

proof fn lemma_operator_prefix_of(op_text: Seq<char>, rest: Seq<char>)
    requires
        op_text == ">"@ || op_text == "<"@ || op_text == ">="@ || op_text == "<="@,
        rest.len() > 0,
        text::is_digit(rest[0]),
    ensures
        operator_prefix(op_text + rest) == (
            if op_text == ">"@ {
                Operator::Gt
            } else if op_text == "<"@ {
                Operator::Lt
            } else if op_text == ">="@ {
                Operator::Gte
            } else {
                Operator::Lte
            },
            rest,
        ),
{
    reveal_strlit(">");
    reveal_strlit("<");
    reveal_strlit(">=");
    reveal_strlit("<=");
    let v = op_text + rest;
    if op_text.len() == 1 {
        assert(v[1] == rest[0]);
        assert(v.take(2) != ">="@) by {
            assert(v.take(2)[1] == rest[0]);
        }
        assert(v.take(2) != "<="@) by {
            assert(v.take(2)[1] == rest[0]);
        }
        assert(v.take(1) =~= op_text);
        assert(v.skip(1) =~= rest);
    } else {
        assert(v.take(2) =~= op_text);
        assert(v.skip(2) =~= rest);
    }
}

proof fn lemma_duration_token(value: Seq<char>)
    requires
        value.len() > 0,
        forall|j: int| 0 <= j < value.len() ==> !text::is_ws(#[trigger] value[j]),
        duration_value(operator_prefix(value).1) is Ok,
    ensures
        parse_filter("duration:"@ + value) == Ok::<Seq<ConditionModel>, Seq<char>>(
            seq![ConditionModel::Duration(operator_prefix(value).0, duration_value(operator_prefix(value).1)->Ok_0)],
        ),
{
    reveal_strlit("duration:");
    reveal_strlit("duration");
    reveal_strlit("error");
    reveal_strlit("tls");
    reveal_strlit("method");
    reveal_strlit("host");
    reveal_strlit("path");
    reveal_strlit("status");
    reveal_strlit("type");
    reveal_strlit("has");
    let t = "duration:"@ + value;
    assert forall|j: int| 0 <= j < t.len() implies !text::is_ws(#[trigger] t[j]) by {
        if j < 9 {
            assert(t[j] == "duration:"@[j]);
        } else {
            assert(t[j] == value[j - 9]);
        }
    }
    text::lemma_single_word(t);
    assert forall|j: int| 0 <= j < 8 implies t[j] != ':' by {
        assert(t[j] == "duration:"@[j]);
    }
    assert(t[8] == ':');
    text::lemma_find_at(t, ':', 8);
    assert(t.take(8) =~= "duration"@);
    assert(t.skip(9) =~= value);
    assert(parse_tokens(seq![t].drop_first()) == Ok::<Seq<ConditionModel>, Seq<char>>(Seq::empty())) by {
        assert(seq![t].drop_first() =~= Seq::<Seq<char>>::empty());
    }
}

proof fn lemma_duration_filter_text(op_text: Seq<char>, n: nat, unit: Seq<char>)
    requires
        op_text == ">"@ || op_text == "<"@ || op_text == ">="@ || op_text == "<="@,
        unit == "s"@ || unit == "ms"@,
        n * 1000 <= u64::MAX,
    ensures
        parse_filter("duration:"@ + (op_text + (text::decimal(n) + unit))) == Ok::<Seq<ConditionModel>, Seq<char>>(
            seq![ConditionModel::Duration(operator_prefix(op_text + (text::decimal(n) + unit)).0,
                if unit == "s"@ { n * 1_000_000_000 } else { n * 1_000_000 })],
        ),
{
    reveal_strlit(">");
    reveal_strlit("<");
    reveal_strlit(">=");
    reveal_strlit("<=");
    reveal_strlit("s");
    reveal_strlit("ms");
    text::lemma_decimal_reads_back(n);
    let d = text::decimal(n);
    let rest = d + unit;
    let value = op_text + rest;
    assert(rest[0] == d[0]);
    lemma_operator_prefix_of(op_text, rest);
    lemma_unit_suffixes(n);
    assert forall|j: int| 0 <= j < value.len() implies !text::is_ws(#[trigger] value[j]) by {
        if j < op_text.len() {
            assert(value[j] == op_text[j]);
        } else if j < op_text.len() + d.len() {
            assert(value[j] == d[j - op_text.len()]);
            assert(text::is_digit(d[j - op_text.len()]));
        } else {
            assert(value[j] == unit[j - op_text.len() - d.len()]);
        }
    }
    lemma_duration_token(value);
}

#[verifier::spinoff_prover]
proof fn lemma_duration_filter_gt(n: nat, e: TrafficEntryView)
    requires
        n * 1000 <= u64::MAX,
    ensures
        parse_filter("duration:>"@ + text::decimal(n) + "s"@) matches Ok(cs) && (filter_holds(cs, e)
            <==> e.duration_nanos > n * 1_000_000_000),
{
    reveal_strlit("duration:>");
    reveal_strlit("duration:");
    reveal_strlit(">");
    reveal_strlit("<");
    reveal_strlit(">=");
    reveal_strlit("<=");
    reveal_strlit("s");
    reveal_strlit("ms");
    let d = text::decimal(n);
    text::lemma_decimal_reads_back(n);
    assert(">"@ != "<"@) by {
        assert(">"@[0] != "<"@[0]);
    }
    assert(">="@ != "<="@) by {
        assert(">="@[0] != "<="@[0]);
    }
    assert("duration:>"@ + d + "s"@ =~= "duration:"@ + (">"@ + (d + "s"@)));
    lemma_duration_filter_text(">"@, n, "s"@);
    assert(d[0] == (d + "s"@)[0]);
    lemma_operator_prefix_of(">"@, d + "s"@);
    let cs = seq![ConditionModel::Duration(Operator::Gt, n * 1_000_000_000)];
    assert(filter_holds(cs, e) == condition_holds(cs[0], e));
}

#[verifier::spinoff_prover]
proof fn lemma_duration_filter_lt(n: nat, e: TrafficEntryView)
    requires
        n * 1000 <= u64::MAX,
    ensures
        parse_filter("duration:<"@ + text::decimal(n) + "s"@) matches Ok(cs) && (filter_holds(cs, e)
            <==> e.duration_nanos < n * 1_000_000_000),
{
    reveal_strlit("duration:<");
    reveal_strlit("duration:");
    reveal_strlit(">");
    reveal_strlit("<");
    reveal_strlit(">=");
    reveal_strlit("<=");
    reveal_strlit("s");
    reveal_strlit("ms");
    let d = text::decimal(n);
    text::lemma_decimal_reads_back(n);
    assert(">"@ != "<"@) by {
        assert(">"@[0] != "<"@[0]);
    }
    assert(">="@ != "<="@) by {
        assert(">="@[0] != "<="@[0]);
    }
    assert("duration:<"@ + d + "s"@ =~= "duration:"@ + ("<"@ + (d + "s"@)));
    lemma_duration_filter_text("<"@, n, "s"@);
    assert(d[0] == (d + "s"@)[0]);
    lemma_operator_prefix_of("<"@, d + "s"@);
    let cs = seq![ConditionModel::Duration(Operator::Lt, n * 1_000_000_000)];
    assert(filter_holds(cs, e) == condition_holds(cs[0], e));
}

#[verifier::spinoff_prover]
proof fn lemma_duration_filter_gte(n: nat, e: TrafficEntryView)
    requires
        n * 1000 <= u64::MAX,
    ensures
        parse_filter("duration:>="@ + text::decimal(n) + "ms"@) matches Ok(cs) && (filter_holds(cs, e)
            <==> e.duration_nanos >= n * 1_000_000),
{
    reveal_strlit("duration:>=");
    reveal_strlit("duration:");
    reveal_strlit(">");
    reveal_strlit("<");
    reveal_strlit(">=");
    reveal_strlit("<=");
    reveal_strlit("s");
    reveal_strlit("ms");
    let d = text::decimal(n);
    text::lemma_decimal_reads_back(n);
    assert(">"@ != "<"@) by {
        assert(">"@[0] != "<"@[0]);
    }
    assert(">="@ != "<="@) by {
        assert(">="@[0] != "<="@[0]);
    }
    assert("duration:>="@ + d + "ms"@ =~= "duration:"@ + (">="@ + (d + "ms"@)));
    lemma_duration_filter_text(">="@, n, "ms"@);
    assert(d[0] == (d + "ms"@)[0]);
    lemma_operator_prefix_of(">="@, d + "ms"@);
    let cs = seq![ConditionModel::Duration(Operator::Gte, n * 1_000_000)];
    assert(filter_holds(cs, e) == condition_holds(cs[0], e));
}

#[verifier::spinoff_prover]
proof fn lemma_duration_filter_lte(n: nat, e: TrafficEntryView)
    requires
        n * 1000 <= u64::MAX,
    ensures
        parse_filter("duration:<="@ + text::decimal(n) + "ms"@) matches Ok(cs) && (filter_holds(cs, e)
            <==> e.duration_nanos <= n * 1_000_000),
{
    reveal_strlit("duration:<=");
    reveal_strlit("duration:");
    reveal_strlit(">");
    reveal_strlit("<");
    reveal_strlit(">=");
    reveal_strlit("<=");
    reveal_strlit("s");
    reveal_strlit("ms");
    let d = text::decimal(n);
    text::lemma_decimal_reads_back(n);
    assert(">"@ != "<"@) by {
        assert(">"@[0] != "<"@[0]);
    }
    assert(">="@ != "<="@) by {
        assert(">="@[0] != "<="@[0]);
    }
    assert("duration:<="@ + d + "ms"@ =~= "duration:"@ + ("<="@ + (d + "ms"@)));
    lemma_duration_filter_text("<="@, n, "ms"@);
    assert(d[0] == (d + "ms"@)[0]);
    lemma_operator_prefix_of("<="@, d + "ms"@);
    let cs = seq![ConditionModel::Duration(Operator::Lte, n * 1_000_000)];
    assert(filter_holds(cs, e) == condition_holds(cs[0], e));
}

/// A duration filter keeps exactly the entries whose duration compares with the
/// written one as its operator says, where `<n>s` is `n` seconds and `<n>ms` is `n`
/// milliseconds.
pub proof fn lemma_duration_filter_matches(n: nat, e: TrafficEntryView)
    requires
        n * 1000 <= u64::MAX,
    ensures
        parse_filter("duration:>"@ + text::decimal(n) + "s"@) matches Ok(cs) && (filter_holds(cs, e)
            <==> e.duration_nanos > n * 1_000_000_000),
        parse_filter("duration:<"@ + text::decimal(n) + "s"@) matches Ok(cs) && (filter_holds(cs, e)
            <==> e.duration_nanos < n * 1_000_000_000),
        parse_filter("duration:>="@ + text::decimal(n) + "ms"@) matches Ok(cs) && (filter_holds(cs, e)
            <==> e.duration_nanos >= n * 1_000_000),
        parse_filter("duration:<="@ + text::decimal(n) + "ms"@) matches Ok(cs) && (filter_holds(cs, e)
            <==> e.duration_nanos <= n * 1_000_000),
{
    lemma_duration_filter_gt(n, e);
    lemma_duration_filter_lt(n, e);
    lemma_duration_filter_gte(n, e);
    lemma_duration_filter_lte(n, e);
}

/// With no condition every entry is kept, in order.
pub proof fn lemma_no_condition_keeps_all(entries: Seq<TrafficEntryView>)
    ensures
        entries.filter(|e: TrafficEntryView| filter_holds(Seq::empty(), e)) == entries,
    decreases entries.len(),
{
    reveal_with_fuel(Seq::<_>::filter, 1);
    if entries.len() > 0 {
        lemma_no_condition_keeps_all(entries.drop_last());
        assert(filter_holds(Seq::empty(), entries.last()));
        assert(entries.drop_last().push(entries.last()) =~= entries);
    }
}

/// A blank filter text parses to no condition, so every entry is kept, in order.
pub proof fn lemma_blank_filter_keeps_all(input: Seq<char>, entries: Seq<TrafficEntryView>)
    requires
        text::trim_start(input).len() == 0,
    ensures
        parse_filter(input) == Ok::<Seq<ConditionModel>, Seq<char>>(Seq::empty()),
        entries.filter(|e: TrafficEntryView| filter_holds(Seq::empty(), e)) == entries,
{
    assert(text::words(input) =~= Seq::<Seq<char>>::empty());
    assert(parse_tokens(Seq::<Seq<char>>::empty()) == Ok::<Seq<ConditionModel>, Seq<char>>(Seq::empty()));
    lemma_no_condition_keeps_all(entries);
}

#[derive(Debug, Clone, Copy)]
struct Comparison {
    op: Operator,
    value: u128,
}

impl Comparison {
    fn matches(&self, actual: u128) -> (r: bool)
        ensures
            r == compares(self.op, self.value as int, actual as int),
    {
        match self.op {
            Operator::Eq => actual == self.value,
            Operator::Gt => actual > self.value,
            Operator::Gte => actual >= self.value,
            Operator::Lt => actual < self.value,
            Operator::Lte => actual <= self.value,
        }
    }
}

#[derive(Debug, Clone)]
enum Condition {
    Method(String),
    Host(String),
    Path(String),
    Status(Comparison),
    ContentType(String),
    HasRequestBody,
    HasResponseBody,
    Error(bool),
    Tls(bool),
    Duration(Comparison),
}

impl View for Condition {
    type V = ConditionModel;

    closed spec fn view(&self) -> ConditionModel {
        match self {
            Condition::Method(m) => ConditionModel::Method(m@),
            Condition::Host(h) => ConditionModel::Host(h@),
            Condition::Path(p) => ConditionModel::Path(p@),
            Condition::Status(c) => ConditionModel::Status(c.op, c.value as nat),
            Condition::ContentType(k) => ConditionModel::ContentType(k@),
            Condition::HasRequestBody => ConditionModel::HasRequestBody,
            Condition::HasResponseBody => ConditionModel::HasResponseBody,
            Condition::Error(b) => ConditionModel::Error(*b),
            Condition::Tls(b) => ConditionModel::Tls(*b),
            Condition::Duration(c) => ConditionModel::Duration(c.op, c.value as nat),
        }
    }
}

fn content_type_lower(ct: &Option<String>) -> (r: String)
    ensures
        r@ == text::lower(content_type_text(opt_view(*ct))),
{
    match ct {
        Some(c) => text::to_lower(c.as_str()),
        None => {
            let r = String::new();
            assert(text::lower(Seq::<char>::empty()) =~= Seq::<char>::empty());
            r
        },
    }
}

impl Condition {
    fn matches(&self, entry: &TrafficEntry) -> (r: bool)
        ensures
            r == condition_holds(self@, entry@),
    {
        match self {
            Condition::Method(method) => text::eq_ignore_case_str(entry.method.as_str(), method.as_str()),
            Condition::Host(host) => {
                let h = text::to_lower(entry.host.as_str());
                text::contains_str(h.as_str(), host.as_str())
            },
            Condition::Path(path) => text::contains_str(entry.path.as_str(), path.as_str()),
            Condition::Status(comparison) => match entry.response_status {
                Some(s) => comparison.matches(s as u128),
                None => false,
            },
            Condition::ContentType(kind) => {
                let request = content_type_lower(&entry.request_body.content_type);
                let response = content_type_lower(&entry.response_body.content_type);
                text::contains_str(request.as_str(), kind.as_str()) || text::contains_str(
                    response.as_str(),
                    kind.as_str(),
                )
            },
            Condition::HasRequestBody => entry.request_body.original_size > 0,
            Condition::HasResponseBody => entry.response_body.original_size > 0,
            Condition::Error(expected) => entry.error.is_some() == *expected,
            Condition::Tls(expected) => entry.tls.is_some() == *expected,
            Condition::Duration(comparison) => comparison.matches(entry.duration_nanos as u128),
        }
    }
}

fn quoted_message(prefix: &str, v: &str) -> (r: String)
    ensures
        r@ == quoted(prefix@, v@),
{
    let mut r = text::to_owned(prefix);
    text::push_str(&mut r, v);
    text::push_str(&mut r, "'");
    r
}

fn parse_operator(value: &str) -> (r: (Operator, String))
    ensures
        r.0 == operator_prefix(value@).0,
        r.1@ == operator_prefix(value@).1,
{
    let v = text::chars_of(value);
    proof {
        reveal_strlit(">=");
        reveal_strlit("<=");
        reveal_strlit(">");
        reveal_strlit("<");
    }
    if text::has_prefix(value, ">=") {
        (Operator::Gte, text::string_of(&v, 2, v.len()))
    } else if text::has_prefix(value, "<=") {
        (Operator::Lte, text::string_of(&v, 2, v.len()))
    } else if text::has_prefix(value, ">") {
        (Operator::Gt, text::string_of(&v, 1, v.len()))
    } else if text::has_prefix(value, "<") {
        (Operator::Lt, text::string_of(&v, 1, v.len()))
    } else {
        (Operator::Eq, value.to_owned())
    }
}

fn parse_bool(value: &str) -> (r: Result<bool, String>)
    ensures
        match bool_value(value@) {
            Ok(b) => r == Ok::<bool, String>(b),
            Err(e) => r matches Err(m) && m@ == e,
        },
{
    if text::str_eq(value, "true") {
        Ok(true)
    } else if text::str_eq(value, "false") {
        Ok(false)
    } else {
        Err(quoted_message("expected true or false, got '", value))
    }
}

fn parse_comparison_u16(value: &str) -> (r: Result<Comparison, String>)
    ensures
        ({
            let (op, raw) = operator_prefix(value@);
            match text::parse_uint(raw, u16::MAX as nat) {
                Some(n) => r matches Ok(c) && c.op == op && c.value == n,
                None => r matches Err(m) && m@ == quoted("invalid status code '"@, raw),
            }
        }),
{
    let (op, raw) = parse_operator(value);
    match text::parse_uint_str(raw.as_str(), 65535) {
        Some(n) => Ok(Comparison { op, value: n as u128 }),
        None => Err(quoted_message("invalid status code '", raw.as_str())),
    }
}

fn parse_comparison_duration(value: &str) -> (r: Result<Comparison, String>)
    ensures
        ({
            let (op, raw) = operator_prefix(value@);
            match duration_value(raw) {
                Ok(n) => r matches Ok(c) && c.op == op && c.value == n,
                Err(e) => r matches Err(m) && m@ == e,
            }
        }),
{
    let (op, raw) = parse_operator(value);
    let v = text::chars_of(raw.as_str());
    proof {
        reveal_strlit("ms");
        reveal_strlit("s");
    }
    let (number, scale): (String, u128) = if text::has_suffix(raw.as_str(), "ms") {
        (text::string_of(&v, 0, v.len() - 2), 1_000_000)
    } else if text::has_suffix(raw.as_str(), "s") {
        (text::string_of(&v, 0, v.len() - 1), 1_000_000_000)
    } else {
        (raw.clone(), 1_000_000)
    };
    proof {
        if text::ends_with(raw@, "ms"@) {
            assert(v@.subrange(0, v@.len() - 2) =~= raw@.take(raw@.len() - 2));
        } else if text::ends_with(raw@, "s"@) {
            assert(v@.subrange(0, v@.len() - 1) =~= raw@.take(raw@.len() - 1));
        }
    }
    match text::parse_uint_str(number.as_str(), u64::MAX) {
        Some(n) => Ok(Comparison { op, value: (n as u128) * scale }),
        None => Err(quoted_message("invalid duration '", raw.as_str())),
    }
}

fn parse_condition(token: &str) -> (r: Result<Condition, String>)
    ensures
        match parse_token(token@) {
            Ok(c) => r matches Ok(x) && x@ == c,
            Err(e) => r matches Err(m) && m@ == e,
        },
{
    let (key, value) = match text::split_once_char(token, ':') {
        Some(kv) => kv,
        None => return Err(quoted_message("invalid filter token '", token)),
    };
    let k = key.as_str();
    if text::str_eq(k, "method") {
        Ok(Condition::Method(text::to_upper(value.as_str())))
    } else if text::str_eq(k, "host") {
        Ok(Condition::Host(text::to_lower(value.as_str())))
    } else if text::str_eq(k, "path") {
        Ok(Condition::Path(value))
    } else if text::str_eq(k, "status") {
        match parse_comparison_u16(value.as_str()) {
            Ok(c) => Ok(Condition::Status(c)),
            Err(e) => Err(e),
        }
    } else if text::str_eq(k, "type") {
        Ok(Condition::ContentType(text::to_lower(value.as_str())))
    } else if text::str_eq(k, "has") {
        if text::str_eq(value.as_str(), "request-body") {
            Ok(Condition::HasRequestBody)
        } else if text::str_eq(value.as_str(), "response-body") {
            Ok(Condition::HasResponseBody)
        } else {
            let mut m = text::to_owned("unsupported has:");
            text::push_str(&mut m, value.as_str());
            Err(m)
        }
    } else if text::str_eq(k, "error") {
        match parse_bool(value.as_str()) {
            Ok(b) => Ok(Condition::Error(b)),
            Err(e) => Err(e),
        }
    } else if text::str_eq(k, "tls") {
        match parse_bool(value.as_str()) {
            Ok(b) => Ok(Condition::Tls(b)),
            Err(e) => Err(e),
        }
    } else if text::str_eq(k, "duration") {
        match parse_comparison_duration(value.as_str()) {
            Ok(c) => Ok(Condition::Duration(c)),
            Err(e) => Err(e),
        }
    } else {
        Err(quoted_message("unsupported filter key '", k))
    }
}

closed spec fn conditions_view(v: Seq<Condition>) -> Seq<ConditionModel> {
    v.map_values(|c: Condition| c@)
}

/// A parsed filter: every condition must hold.
#[derive(Debug, Clone)]
pub struct TrafficFilter {
    conditions: Vec<Condition>,
}

impl View for TrafficFilter {
    type V = Seq<ConditionModel>;

    closed spec fn view(&self) -> Seq<ConditionModel> {
        conditions_view(self.conditions@)
    }
}

impl Default for TrafficFilter {
    fn default() -> (r: Self)
        ensures
            r@ == Seq::<ConditionModel>::empty(),
    {
        TrafficFilter::new()
    }
}

impl TrafficFilter {
    /// The filter with no condition, which every entry satisfies.
    pub fn new() -> (r: Self)
        ensures
            r@ == Seq::<ConditionModel>::empty(),
    {
        let r = TrafficFilter { conditions: Vec::new() };
        assert(r@ =~= Seq::<ConditionModel>::empty());
        r
    }

    /// Parses a filter text: whitespace-separated `key:value` tokens, all of which
    /// must hold. The first token that is not understood decides the error.
    pub fn parse(input: &str) -> (r: Result<Self, String>)
        ensures
            match parse_filter(input@) {
                Ok(cs) => r matches Ok(f) && f@ == cs,
                Err(e) => r matches Err(m) && m@ == e,
            },
    {
        let tokens = text::split_ws(input);
        let ghost toks = text::views(tokens@);
        let mut conditions: Vec<Condition> = Vec::new();
        let mut i: usize = 0;
        assert(toks.skip(0) =~= toks);
        assert(conditions_view(conditions@) =~= Seq::<ConditionModel>::empty());
        while i < tokens.len()
            invariant
                toks == text::views(tokens@),
                toks == text::words(input@),
                0 <= i <= tokens.len(),
                parse_filter(input@) == (match parse_tokens(toks.skip(i as int)) {
                    Ok(rest) => Ok(conditions_view(conditions@) + rest),
                    Err(e) => Err(e),
                }),
            decreases tokens.len() - i,
        {
            assert(toks.skip(i as int)[0] == tokens@[i as int]@);
            assert(toks.skip(i as int).drop_first() =~= toks.skip(i + 1));
            match parse_condition(tokens[i].as_str()) {
                Ok(c) => {
                    let ghost old_c = conditions@;
                    conditions.push(c);
                    proof {
                        assert(conditions_view(conditions@) =~= conditions_view(old_c).push(c@));
                        match parse_tokens(toks.skip(i + 1)) {
                            Ok(rest) => {
                                assert(conditions_view(old_c) + (seq![c@] + rest)
                                    =~= conditions_view(conditions@) + rest);
                            },
                            Err(_) => {},
                        }
                    }
                },
                Err(e) => {
                    return Err(e);
                },
            }
            i = i + 1;
        }
        assert(toks.skip(i as int) =~= Seq::<Seq<char>>::empty());
        assert(conditions_view(conditions@) + Seq::<ConditionModel>::empty() =~= conditions_view(
            conditions@,
        ));
        Ok(TrafficFilter { conditions })
    }

    /// Whether the entry satisfies every condition.
    pub fn matches(&self, entry: &TrafficEntry) -> (r: bool)
        ensures
            r == filter_holds(self@, entry@),
    {
        let mut i: usize = 0;
        while i < self.conditions.len()
            invariant
                0 <= i <= self.conditions.len(),
                forall|j: int| 0 <= j < i ==> condition_holds(#[trigger] self@[j], entry@),
                self@ == conditions_view(self.conditions@),
            decreases self.conditions.len() - i,
        {
            if !self.conditions[i].matches(entry) {
                assert(!condition_holds(self@[i as int], entry@));
                return false;
            }
            i = i + 1;
        }
        true
    }
}


/// The views of a list of entries.
pub open spec fn entries_view(s: Seq<TrafficEntry>) -> Seq<TrafficEntryView> {
    s.map_values(|e: TrafficEntry| e@)
}

/// The media type of a content-type header value: lower-cased, without parameters.
pub open spec fn media_type(ct: Seq<char>) -> Seq<char> {
    let essence = match text::split_once(ct, ';') {
        Some((a, _)) => a,
        None => ct,
    };
    text::lower(text::trim(essence))
}

/// The host names seen in `entries`, lower-cased; empty ones are left out.
pub open spec fn seen_hosts(entries: Seq<TrafficEntryView>) -> Set<Seq<char>>
    decreases entries.len(),
{
    if entries.len() == 0 {
        Set::empty()
    } else {
        let rest = seen_hosts(entries.drop_last());
        let h = text::lower(entries.last().host);
        if h.len() > 0 { rest.insert(h) } else { rest }
    }
}

/// The response statuses seen in `entries`.
pub open spec fn seen_statuses(entries: Seq<TrafficEntryView>) -> Set<u16>
    decreases entries.len(),
{
    if entries.len() == 0 {
        Set::empty()
    } else {
        let rest = seen_statuses(entries.drop_last());
        match entries.last().response_status {
            Some(s) => rest.insert(s),
            None => rest,
        }
    }
}

/// Adds the media type of an optional content type to a set, unless it is empty.
pub open spec fn add_media_type(set: Set<Seq<char>>, ct: Option<Seq<char>>) -> Set<Seq<char>> {
    match ct {
        Some(c) => if media_type(c).len() > 0 { set.insert(media_type(c)) } else { set },
        None => set,
    }
}

/// The media types of request and response bodies seen in `entries`.
pub open spec fn seen_media_types(entries: Seq<TrafficEntryView>) -> Set<Seq<char>>
    decreases entries.len(),
{
    if entries.len() == 0 {
        Set::empty()
    } else {
        let rest = seen_media_types(entries.drop_last());
        add_media_type(
            add_media_type(rest, entries.last().request_body.content_type),
            entries.last().response_body.content_type,
        )
    }
}

/// The values that filter suggestions draw from what was captured.
#[derive(Debug, Clone)]
pub struct FilterIndex {
    pub hosts: Vec<String>,
    pub statuses: Vec<u16>,
    pub content_types: Vec<String>,
}

impl Default for FilterIndex {
    fn default() -> (r: Self)
        ensures
            r.wf(),
            r.host_set() == Set::<Seq<char>>::empty(),
            r.status_set() == Set::<u16>::empty(),
            r.media_type_set() == Set::<Seq<char>>::empty(),
    {
        FilterIndex::new()
    }
}

impl FilterIndex {
    /// Hosts and media types are kept strictly sorted; statuses occur once each.
    pub open spec fn wf(&self) -> bool {
        &&& text::strictly_sorted(text::views(self.hosts@))
        &&& text::strictly_sorted(text::views(self.content_types@))
        &&& self.statuses@.no_duplicates()
    }

    /// The hosts seen.
    pub open spec fn host_set(&self) -> Set<Seq<char>> {
        text::views(self.hosts@).to_set()
    }

    /// The statuses seen.
    pub open spec fn status_set(&self) -> Set<u16> {
        self.statuses@.to_set()
    }

    /// The media types seen.
    pub open spec fn media_type_set(&self) -> Set<Seq<char>> {
        text::views(self.content_types@).to_set()
    }

    /// An index with nothing in it.
    pub fn new() -> (r: Self)
        ensures
            r.wf(),
            r.host_set() == Set::<Seq<char>>::empty(),
            r.status_set() == Set::<u16>::empty(),
            r.media_type_set() == Set::<Seq<char>>::empty(),
    {
        let r = FilterIndex { hosts: Vec::new(), statuses: Vec::new(), content_types: Vec::new() };
        assert(r.host_set() =~= Set::<Seq<char>>::empty());
        assert(r.status_set() =~= Set::<u16>::empty());
        assert(r.media_type_set() =~= Set::<Seq<char>>::empty());
        r
    }

    /// An index holding the given values, each list in the given order.
    pub fn from_parts(hosts: Vec<String>, statuses: Vec<u16>, content_types: Vec<String>) -> (r: Self)
        ensures
            r.hosts@ == hosts@,
            r.statuses@ == statuses@,
            r.content_types@ == content_types@,
    {
        FilterIndex { hosts, statuses, content_types }
    }

    /// The captured hosts, lower-cased and sorted.
    pub fn hosts(&self) -> (r: &[String])
        ensures
            r@ == self.hosts@,
    {
        self.hosts.as_slice()
    }

    /// The captured response statuses.
    pub fn statuses(&self) -> (r: &[u16])
        ensures
            r@ == self.statuses@,
    {
        self.statuses.as_slice()
    }

    /// The captured media types, sorted.
    pub fn content_types(&self) -> (r: &[String])
        ensures
            r@ == self.content_types@,
    {
        self.content_types.as_slice()
    }

    fn add_status(&mut self, status: u16)
        requires
            old(self).statuses@.no_duplicates(),
        ensures
            final(self).statuses@.no_duplicates(),
            final(self).status_set() == old(self).status_set().insert(status),
            final(self).hosts@ == old(self).hosts@,
            final(self).content_types@ == old(self).content_types@,
    {
        let mut i: usize = 0;
        while i < self.statuses.len()
            invariant
                0 <= i <= self.statuses.len(),
                forall|j: int| 0 <= j < i ==> self.statuses@[j] != status,
                self.statuses@ == old(self).statuses@,
                self.hosts@ == old(self).hosts@,
                self.content_types@ == old(self).content_types@,
                self.statuses@.no_duplicates(),
            decreases self.statuses.len() - i,
        {
            if self.statuses[i] == status {
                assert(self.status_set() =~= self.status_set().insert(status));
                return;
            }
            i = i + 1;
        }
        let ghost old_s = self.statuses@;
        self.statuses.push(status);
        proof {
            let ns = self.statuses@;
            assert(ns =~= old_s.push(status));
            assert forall|x: u16| ns.to_set().contains(x) <==> old_s.to_set().insert(status).contains(x) by {
                if ns.to_set().contains(x) {
                    let k = choose|k: int| 0 <= k < ns.len() && ns[k] == x;
                    if k < old_s.len() {
                        assert(old_s[k] == x);
                    }
                }
                if old_s.to_set().contains(x) {
                    let k = choose|k: int| 0 <= k < old_s.len() && old_s[k] == x;
                    assert(ns[k] == x);
                }
                if x == status {
                    assert(ns[old_s.len() as int] == x);
                }
            }
            assert(self.status_set() =~= old_s.to_set().insert(status));
        }
    }

    fn add_media_type(&mut self, ct: &Option<String>)
        requires
            old(self).wf(),
        ensures
            final(self).wf(),
            final(self).media_type_set() == add_media_type(old(self).media_type_set(), opt_view(*ct)),
            final(self).hosts@ == old(self).hosts@,
            final(self).statuses@ == old(self).statuses@,
    {
        if let Some(c) = ct {
            let m = media_type_of(c.as_str());
            if !m.as_str().is_empty() {
                text::insert_sorted_unique(&mut self.content_types, m);
            }
        }
    }

    /// Adds what a new entry brings: its host, status and media types.
    pub fn record(&mut self, entry: &TrafficEntry)
        requires
            old(self).wf(),
        ensures
            final(self).wf(),
            final(self).host_set() == ({
                let h = text::lower(entry.host@);
                if h.len() > 0 { old(self).host_set().insert(h) } else { old(self).host_set() }
            }),
            final(self).status_set() == (match entry.response_status {
                Some(s) => old(self).status_set().insert(s),
                None => old(self).status_set(),
            }),
            final(self).media_type_set() == add_media_type(
                add_media_type(old(self).media_type_set(), opt_view(entry.request_body.content_type)),
                opt_view(entry.response_body.content_type),
            ),
    {
        let h = text::to_lower(entry.host.as_str());
        let hv = text::chars_of(h.as_str());
        if hv.len() > 0 {
            text::insert_sorted_unique(&mut self.hosts, h);
        }
        if let Some(s) = entry.response_status {
            self.add_status(s);
        }
        self.add_media_type(&entry.request_body.content_type);
        self.add_media_type(&entry.response_body.content_type);
    }
}

/// The media type of a content-type header value.
pub fn media_type_of(ct: &str) -> (r: String)
    ensures
        r@ == media_type(ct@),
{
    let essence = match text::split_once_char(ct, ';') {
        Some((a, _)) => a,
        None => ct.to_owned(),
    };
    let t = text::trim_str(essence.as_str());
    text::to_lower(t.as_str())
}

/// All captured entries, in capture order, with the index of their values.
#[derive(Debug, Clone)]
pub struct TrafficStore {
    entries: Vec<TrafficEntry>,
    index: FilterIndex,
}

impl TrafficStore {
    /// The index describes exactly the stored entries.
    pub closed spec fn wf(&self) -> bool {
        &&& self.index.wf()
        &&& self.index.host_set() == seen_hosts(entries_view(self.entries@))
        &&& self.index.status_set() == seen_statuses(entries_view(self.entries@))
        &&& self.index.media_type_set() == seen_media_types(entries_view(self.entries@))
    }

    /// The models of the entries, in capture order.
    pub closed spec fn entries_model(&self) -> Seq<TrafficEntryView> {
        entries_view(self.entries@)
    }

    /// An empty store.
    pub fn new() -> (r: Self)
        ensures
            r.wf(),
            r.entries_model() == Seq::<TrafficEntryView>::empty(),
    {
        let r = TrafficStore { entries: Vec::new(), index: FilterIndex::new() };
        assert(r.entries_model() =~= Seq::<TrafficEntryView>::empty());
        r
    }

    /// Appends an entry.
    pub fn push(&mut self, entry: TrafficEntry)
        requires
            old(self).wf(),
        ensures
            final(self).wf(),
            final(self).entries_model() == old(self).entries_model().push(entry@),
    {
        self.index.record(&entry);
        let ghost old_e = self.entries@;
        self.entries.push(entry);
        proof {
            let m = entries_view(self.entries@);
            assert(m =~= entries_view(old_e).push(entry@));
            assert(m.drop_last() =~= entries_view(old_e));
        }
    }

    /// Removes every entry.
    pub fn clear(&mut self)
        ensures
            final(self).wf(),
            final(self).entries_model() == Seq::<TrafficEntryView>::empty(),
    {
        self.entries.clear();
        self.index = FilterIndex::new();
        assert(self.entries_model() =~= Seq::<TrafficEntryView>::empty());
    }

    /// The entries in capture order.
    pub fn entries(&self) -> (r: &[TrafficEntry])
        ensures
            entries_view(r@) == self.entries_model(),
    {
        self.entries.as_slice()
    }

    /// The index of captured values, which filter suggestions draw from.
    pub fn filter_index(&self) -> (r: &FilterIndex)
        ensures
            self.wf() ==> r.wf(),
            self.wf() ==> r.host_set() == seen_hosts(self.entries_model()),
            self.wf() ==> r.status_set() == seen_statuses(self.entries_model()),
            self.wf() ==> r.media_type_set() == seen_media_types(self.entries_model()),
    {
        &self.index
    }

    /// Copies of the entries that satisfy the filter, in capture order.
    pub fn filtered(&self, filter: &TrafficFilter) -> (r: Vec<TrafficEntry>)
        ensures
            entries_view(r@) == self.entries_model().filter(|e: TrafficEntryView| filter_holds(filter@, e)),
    {
        let ghost pred = |e: TrafficEntryView| filter_holds(filter@, e);
        let ghost m = self.entries_model();
        let mut r: Vec<TrafficEntry> = Vec::new();
        let mut i: usize = 0;
        assert(m.take(0).filter(pred) =~= Seq::<TrafficEntryView>::empty()) by {
            reveal_with_fuel(Seq::<_>::filter, 1);
        }
        while i < self.entries.len()
            invariant
                m == entries_view(self.entries@),
                pred == (|e: TrafficEntryView| filter_holds(filter@, e)),
                0 <= i <= self.entries.len(),
                entries_view(r@) == m.take(i as int).filter(pred),
            decreases self.entries.len() - i,
        {
            reveal_with_fuel(Seq::<_>::filter, 1);
            assert(m.take(i + 1).drop_last() =~= m.take(i as int));
            assert(m.take(i + 1).last() == self.entries@[i as int]@);
            if filter.matches(&self.entries[i]) {
                let c = self.entries[i].copy();
                let ghost old_r = r@;
                r.push(c);
                assert(entries_view(r@) =~= entries_view(old_r).push(m[i as int]));
            }
            i = i + 1;
        }
        assert(m.take(i as int) =~= m);
        r
    }

    /// How many entries carry an error.
    pub fn error_count(&self) -> (r: usize)
        ensures
            r == self.entries_model().filter(|e: TrafficEntryView| e.error is Some).len(),
    {
        let ghost pred = |e: TrafficEntryView| e.error is Some;
        let ghost m = self.entries_model();
        let mut n: usize = 0;
        let mut i: usize = 0;
        assert(m.take(0).filter(pred) =~= Seq::<TrafficEntryView>::empty()) by {
            reveal_with_fuel(Seq::<_>::filter, 1);
        }
        while i < self.entries.len()
            invariant
                m == entries_view(self.entries@),
                pred == (|e: TrafficEntryView| e.error is Some),
                0 <= i <= self.entries.len(),
                n == m.take(i as int).filter(pred).len(),
                n <= i,
            decreases self.entries.len() - i,
        {
            reveal_with_fuel(Seq::<_>::filter, 1);
            assert(m.take(i + 1).drop_last() =~= m.take(i as int));
            assert(m.take(i + 1).last() == self.entries@[i as int]@);
            if self.entries[i].error.is_some() {
                n = n + 1;
            }
            i = i + 1;
        }
        assert(m.take(i as int) =~= m);
        n
    }
}

} // verus!
