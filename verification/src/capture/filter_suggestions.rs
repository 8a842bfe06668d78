//! Completion suggestions and live validation for the filter language.

use crate::capture::store::{parse_filter, FilterIndex, TrafficFilter};
use crate::text;
use vstd::prelude::*;

verus! {

/// What a suggestion completes.
#[derive(Debug, Clone, Copy, PartialEq, Eq)]
pub enum SuggestionKind {
    Key,
    Method,
    Host,
    Status,
    ContentType,
    Boolean,
    HasValue,
    Duration,
}

/// A completion: `replacement` replaces the current token, `display` is shown.
#[derive(Debug, Clone)]
pub struct FilterSuggestion {
    pub replacement: String,
    pub display: String,
    pub kind: SuggestionKind,
}

/// The model of a suggestion.
pub struct SuggestionView {
    pub replacement: Seq<char>,
    pub display: Seq<char>,
    pub kind: SuggestionKind,
}

impl View for FilterSuggestion {
    type V = SuggestionView;

    open spec fn view(&self) -> SuggestionView {
        SuggestionView { replacement: self.replacement@, display: self.display@, kind: self.kind }
    }
}

/// The models of suggestions.
pub open spec fn suggestions_view(v: Seq<FilterSuggestion>) -> Seq<SuggestionView> {
    v.map_values(|s: FilterSuggestion| s@)
}

/// Whether the filter text is complete and valid, still being typed, or wrong.
#[derive(Debug, Clone, PartialEq, Eq)]
pub enum FilterParseState {
    Valid,
    Incomplete,
    Invalid(String),
}

/// A byte range of the filter text.
#[derive(Debug, Clone, Copy, PartialEq, Eq)]
pub struct TokenRange {
    pub start: usize,
    pub end: usize,
}

// ---------------------------------------------------------------------------
// Vocabulary
// ---------------------------------------------------------------------------

/// The filter keys, in the order they are suggested.
pub open spec fn filter_keys() -> Seq<Seq<char>> {
    seq![
        "duration:"@,
        "error:"@,
        "has:"@,
        "host:"@,
        "method:"@,
        "path:"@,
        "status:"@,
        "tls:"@,
        "type:"@,
    ]
}

/// The request methods suggested.
pub open spec fn methods() -> Seq<Seq<char>> {
    seq![
        "CONNECT"@,
        "DELETE"@,
        "GET"@,
        "HEAD"@,
        "OPTIONS"@,
        "PATCH"@,
        "POST"@,
        "PUT"@,
        "TRACE"@,
    ]
}

/// The boolean values suggested.
pub open spec fn booleans() -> Seq<Seq<char>> {
    seq!["false"@, "true"@]
}

/// The values suggested for `has:`.
pub open spec fn has_values() -> Seq<Seq<char>> {
    seq!["request-body"@, "response-body"@]
}

/// The comparison operators suggested.
pub open spec fn operators() -> Seq<Seq<char>> {
    seq!["<"@, "<="@, "="@, ">"@, ">="@]
}

/// The durations suggested.
pub open spec fn duration_presets() -> Seq<Seq<char>> {
    seq!["100ms"@, "250ms"@, "500ms"@, "1s"@, "2s"@, "5s"@, "10s"@]
}

/// The short content-type names suggested.
pub open spec fn content_type_aliases() -> Seq<Seq<char>> {
    seq!["html"@, "json"@, "text"@, "xml"@]
}

/// The statuses always suggested.
pub open spec fn common_status_buckets() -> Seq<u16> {
    seq![200u16, 300u16, 400u16, 500u16]
}

fn filter_keys_list() -> (r: Vec<String>)
    ensures
        text::views(r@) == filter_keys(),
{
    let mut r: Vec<String> = Vec::new();
    r.push(text::to_owned("duration:"));
    r.push(text::to_owned("error:"));
    r.push(text::to_owned("has:"));
    r.push(text::to_owned("host:"));
    r.push(text::to_owned("method:"));
    r.push(text::to_owned("path:"));
    r.push(text::to_owned("status:"));
    r.push(text::to_owned("tls:"));
    r.push(text::to_owned("type:"));
    assert(text::views(r@) =~= filter_keys());
    r
}

fn methods_list() -> (r: Vec<String>)
    ensures
        text::views(r@) == methods(),
{
    let mut r: Vec<String> = Vec::new();
    r.push(text::to_owned("CONNECT"));
    r.push(text::to_owned("DELETE"));
    r.push(text::to_owned("GET"));
    r.push(text::to_owned("HEAD"));
    r.push(text::to_owned("OPTIONS"));
    r.push(text::to_owned("PATCH"));
    r.push(text::to_owned("POST"));
    r.push(text::to_owned("PUT"));
    r.push(text::to_owned("TRACE"));
    assert(text::views(r@) =~= methods());
    r
}

fn booleans_list() -> (r: Vec<String>)
    ensures
        text::views(r@) == booleans(),
{
    let mut r: Vec<String> = Vec::new();
    r.push(text::to_owned("false"));
    r.push(text::to_owned("true"));
    assert(text::views(r@) =~= booleans());
    r
}

fn has_values_list() -> (r: Vec<String>)
    ensures
        text::views(r@) == has_values(),
{
    let mut r: Vec<String> = Vec::new();
    r.push(text::to_owned("request-body"));
    r.push(text::to_owned("response-body"));
    assert(text::views(r@) =~= has_values());
    r
}

fn operators_list() -> (r: Vec<String>)
    ensures
        text::views(r@) == operators(),
{
    let mut r: Vec<String> = Vec::new();
    r.push(text::to_owned("<"));
    r.push(text::to_owned("<="));
    r.push(text::to_owned("="));
    r.push(text::to_owned(">"));
    r.push(text::to_owned(">="));
    assert(text::views(r@) =~= operators());
    r
}

fn duration_presets_list() -> (r: Vec<String>)
    ensures
        text::views(r@) == duration_presets(),
{
    let mut r: Vec<String> = Vec::new();
    r.push(text::to_owned("100ms"));
    r.push(text::to_owned("250ms"));
    r.push(text::to_owned("500ms"));
    r.push(text::to_owned("1s"));
    r.push(text::to_owned("2s"));
    r.push(text::to_owned("5s"));
    r.push(text::to_owned("10s"));
    assert(text::views(r@) =~= duration_presets());
    r
}

fn content_type_aliases_list() -> (r: Vec<String>)
    ensures
        text::views(r@) == content_type_aliases(),
{
    let mut r: Vec<String> = Vec::new();
    r.push(text::to_owned("html"));
    r.push(text::to_owned("json"));
    r.push(text::to_owned("text"));
    r.push(text::to_owned("xml"));
    assert(text::views(r@) =~= content_type_aliases());
    r
}

// ---------------------------------------------------------------------------
// Token under the cursor
// ---------------------------------------------------------------------------

/// Start (character index) of the token that contains character index `k`.
pub open spec fn token_start(s: Seq<char>, k: int) -> nat
    decreases k,
{
    if k <= 0 {
        0
    } else if text::is_ws(s[k - 1]) {
        k as nat
    } else {
        token_start(s, k - 1)
    }
}

/// End (character index, exclusive) of the token that contains character index `k`.
pub open spec fn token_end(s: Seq<char>, k: int) -> nat
    decreases s.len() - k,
{
    if k >= s.len() {
        s.len()
    } else if text::is_ws(s[k]) {
        if k < 0 { 0 } else { k as nat }
    } else {
        token_end(s, k + 1)
    }
}

/// The byte range of the whitespace-delimited token around a byte cursor; the cursor
/// is first limited to the text and moved down to a character boundary.
pub open spec fn token_range(s: Seq<char>, cursor: int) -> (nat, nat) {
    let k = text::chars_within(s, cursor) as int;
    (text::byte_offset(s, token_start(s, k) as int), text::byte_offset(s, token_end(s, k) as int))
}

/// The text between the start of the current token and the cursor.
pub open spec fn before_cursor(s: Seq<char>, cursor: int) -> Seq<char> {
    let k = text::chars_within(s, cursor) as int;
    s.subrange(token_start(s, k) as int, k)
}

proof fn lemma_token_start_bounds(s: Seq<char>, k: int)
    requires
        0 <= k <= s.len(),
    ensures
        token_start(s, k) <= k,
    decreases k,
{
    if k > 0 && !text::is_ws(s[k - 1]) {
        lemma_token_start_bounds(s, k - 1);
    }
}

proof fn lemma_token_end_bounds(s: Seq<char>, k: int)
    requires
        0 <= k <= s.len(),
    ensures
        k <= token_end(s, k) <= s.len(),
    decreases s.len() - k,
{
    if k < s.len() && !text::is_ws(s[k]) {
        lemma_token_end_bounds(s, k + 1);
    }
}

/// Character indices of the token around character index `k`.
pub fn token_chars(v: &Vec<char>, k: usize) -> (r: (usize, usize))
    requires
        k <= v@.len(),
    ensures
        r.0 == token_start(v@, k as int),
        r.1 == token_end(v@, k as int),
        r.0 <= k <= r.1 <= v@.len(),
{
    let mut a = k;
    while a > 0 && !text::char_is_ws(v[a - 1])
        invariant
            0 <= a <= k <= v@.len(),
            token_start(v@, k as int) == token_start(v@, a as int),
        decreases a,
    {
        a = a - 1;
    }
    let mut b = k;
    while b < v.len() && !text::char_is_ws(v[b])
        invariant
            k <= b <= v@.len(),
            token_end(v@, k as int) == token_end(v@, b as int),
        decreases v.len() - b,
    {
        b = b + 1;
    }
    proof {
        lemma_token_start_bounds(v@, k as int);
    }
    (a, b)
}

/// The byte range of the token around the cursor.
pub fn current_token(text: &str, cursor: usize) -> (r: TokenRange)
    ensures
        (r.start as nat, r.end as nat) == token_range(text@, cursor as int),
{
    let v = text::chars_of(text);
    let n = text::str_len(text);
    let offs = text::boundary_offsets(&v);
    let k = text::cursor_char_index(&offs, &v, cursor);
    let (a, b) = token_chars(&v, k);
    TokenRange { start: offs[a], end: offs[b] }
}

// ---------------------------------------------------------------------------
// Building suggestions
// ---------------------------------------------------------------------------

/// A suggestion that completes `key:value`.
pub open spec fn value_suggestion(key: Seq<char>, value: Seq<char>, kind: SuggestionKind) -> SuggestionView {
    SuggestionView { replacement: key + ":"@ + value, display: value, kind }
}

/// The suggestion for a candidate: a key suggestion when there is no key.
pub open spec fn candidate_suggestion(key: Option<Seq<char>>, v: Seq<char>, kind: SuggestionKind) -> SuggestionView {
    match key {
        Some(k) => value_suggestion(k, v, kind),
        None => SuggestionView { replacement: v, display: v, kind },
    }
}

/// Candidates that start with `prefix` (compared lower-cased when `fold`), at most `limit`.
pub open spec fn matching(values: Seq<Seq<char>>, prefix: Seq<char>, fold: bool, limit: nat) -> Seq<Seq<char>> {
    let f = values.filter(|v: Seq<char>| text::starts_with(if fold { text::lower(v) } else { v }, prefix));
    f.take(if f.len() < limit { f.len() as int } else { limit as int })
}

/// The suggestions of values that start with the prefix, for a key or for a bare
/// token.
pub open spec fn suggest(key: Option<Seq<char>>, values: Seq<Seq<char>>, prefix: Seq<char>, fold: bool, limit: nat, kind: SuggestionKind) -> Seq<SuggestionView> {
    matching(values, prefix, fold, limit).map_values(|v: Seq<char>| candidate_suggestion(key, v, kind))
}

proof fn lemma_filter_len_le<A>(s: Seq<A>, p: spec_fn(A) -> bool)
    ensures
        s.filter(p).len() <= s.len(),
    decreases s.len(),
{
    reveal_with_fuel(Seq::<_>::filter, 1);
    if s.len() > 0 {
        lemma_filter_len_le(s.drop_last(), p);
    }
}

fn make_suggestion(key: &Option<String>, v: &String, kind: SuggestionKind) -> (r: FilterSuggestion)
    ensures
        r@ == candidate_suggestion(crate::capture::model::opt_view(*key), v@, kind),
{
    let replacement = match key {
        Some(k) => {
            let mut replacement = k.clone();
            text::push_str(&mut replacement, ":");
            text::push_str(&mut replacement, v.as_str());
            replacement
        },
        None => v.clone(),
    };
    let r = FilterSuggestion { replacement, display: v.clone(), kind };
    proof {
        match key {
            Some(k) => {
                assert(r@.replacement =~= k@ + ":"@ + v@);
            },
            None => {},
        }
    }
    r
}

/// Suggestions for the candidates that start with `prefix`, in order, at most `limit`.
fn suggestions_from(
    key: &Option<String>,
    values: &[String],
    prefix: &str,
    fold: bool,
    limit: usize,
    kind: SuggestionKind,
) -> (r: Vec<FilterSuggestion>)
    ensures
        suggestions_view(r@) == suggest(
            crate::capture::model::opt_view(*key),
            text::views(values@),
            prefix@,
            fold,
            limit as nat,
            kind,
        ),
{
    let ghost vs = text::views(values@);
    let ghost pred = |v: Seq<char>| text::starts_with(if fold { text::lower(v) } else { v }, prefix@);
    let ghost f = |v: Seq<char>| candidate_suggestion(crate::capture::model::opt_view(*key), v, kind);
    let mut r: Vec<FilterSuggestion> = Vec::new();
    let mut i: usize = 0;
    assert(vs.take(0).filter(pred) =~= Seq::<Seq<char>>::empty()) by {
        reveal_with_fuel(Seq::<_>::filter, 1);
    }
    assert(suggestions_view(r@) =~= vs.take(0).filter(pred).take(0).map_values(f));
    while i < values.len()
        invariant
            vs == text::views(values@),
            pred == (|v: Seq<char>| text::starts_with(if fold { text::lower(v) } else { v }, prefix@)),
            f == (|v: Seq<char>| candidate_suggestion(crate::capture::model::opt_view(*key), v, kind)),
            0 <= i <= values.len(),
            r@.len() <= limit,
            r@.len() == (if vs.take(i as int).filter(pred).len() < limit {
                vs.take(i as int).filter(pred).len() as int
            } else {
                limit as int
            }),
            suggestions_view(r@) == vs.take(i as int).filter(pred).take(r@.len() as int).map_values(f),
        decreases values.len() - i,
    {
        reveal_with_fuel(Seq::<_>::filter, 1);
        let ghost before = vs.take(i as int).filter(pred);
        assert(vs.take(i + 1).drop_last() =~= vs.take(i as int));
        assert(vs.take(i + 1).last() == values@[i as int]@);
        let candidate = if fold { text::to_lower(values[i].as_str()) } else { values[i].clone() };
        let hit = text::has_prefix(candidate.as_str(), prefix);
        if hit {
            if r.len() < limit {
                let s = make_suggestion(key, &values[i], kind);
                let ghost old_r = r@;
                r.push(s);
                proof {
                    let after = vs.take(i + 1).filter(pred);
                    assert(after =~= before.push(vs[i as int]));
                    assert(suggestions_view(r@) =~= suggestions_view(old_r).push(f(vs[i as int])));
                    assert(after.take(r@.len() as int) =~= before.take(old_r.len() as int).push(
                        vs[i as int],
                    ));
                }
            } else {
                proof {
                    let after = vs.take(i + 1).filter(pred);
                    assert(after =~= before.push(vs[i as int]));
                    assert(after.take(r@.len() as int) =~= before.take(r@.len() as int));
                }
            }
        }
        i = i + 1;
    }
    proof {
        assert(vs.take(i as int) =~= vs);
        lemma_filter_len_le(vs, pred);
    }
    r
}


/// `values.filter(starts with prefix)`, each turned into `key:op+value`.
pub open spec fn with_operator(key: Seq<char>, op: Seq<char>, values: Seq<Seq<char>>, prefix: Seq<char>, kind: SuggestionKind) -> Seq<SuggestionView> {
    values.filter(|v: Seq<char>| text::starts_with(v, prefix)).map_values(
        |v: Seq<char>| value_suggestion(key, op + v, kind),
    )
}

fn operator_value_suggestions(
    key: &str,
    op: &str,
    values: &Vec<String>,
    prefix: &str,
    kind: SuggestionKind,
) -> (r: Vec<FilterSuggestion>)
    ensures
        suggestions_view(r@) == with_operator(key@, op@, text::views(values@), prefix@, kind),
{
    let ghost vs = text::views(values@);
    let ghost pred = |v: Seq<char>| text::starts_with(v, prefix@);
    let ghost f = |v: Seq<char>| value_suggestion(key@, op@ + v, kind);
    let mut r: Vec<FilterSuggestion> = Vec::new();
    let mut i: usize = 0;
    assert(vs.take(0).filter(pred) =~= Seq::<Seq<char>>::empty()) by {
        reveal_with_fuel(Seq::<_>::filter, 1);
    }
    assert(suggestions_view(r@) =~= vs.take(0).filter(pred).map_values(f));
    while i < values.len()
        invariant
            vs == text::views(values@),
            pred == (|v: Seq<char>| text::starts_with(v, prefix@)),
            f == (|v: Seq<char>| value_suggestion(key@, op@ + v, kind)),
            0 <= i <= values.len(),
            suggestions_view(r@) == vs.take(i as int).filter(pred).map_values(f),
        decreases values.len() - i,
    {
        reveal_with_fuel(Seq::<_>::filter, 1);
        assert(vs.take(i + 1).drop_last() =~= vs.take(i as int));
        assert(vs.take(i + 1).last() == values@[i as int]@);
        if text::has_prefix(values[i].as_str(), prefix) {
            let mut display = text::to_owned(op);
            text::push_str(&mut display, values[i].as_str());
            let mut replacement = text::to_owned(key);
            text::push_str(&mut replacement, ":");
            text::push_str(&mut replacement, display.as_str());
            let sug = FilterSuggestion { replacement, display, kind };
            let ghost old_r = r@;
            r.push(sug);
            proof {
                assert(sug@.replacement =~= key@ + ":"@ + (op@ + values@[i as int]@));
                assert(sug@ == f(vs[i as int]));
                assert(suggestions_view(r@) =~= suggestions_view(old_r).push(f(vs[i as int])));
            }
        }
        i = i + 1;
    }
    assert(vs.take(i as int) =~= vs);
    r
}

/// Inserts `x` into `out` before the first suggestion whose display is not smaller,
/// unless that one has the same display.
pub open spec fn insert_by_display(out: Seq<SuggestionView>, x: SuggestionView) -> Seq<SuggestionView>
    decreases out.len(),
{
    if out.len() == 0 {
        seq![x]
    } else if text::seq_lt(out[0].display, x.display) {
        seq![out[0]] + insert_by_display(out.drop_first(), x)
    } else if out[0].display == x.display {
        out
    } else {
        seq![x] + out
    }
}

/// Suggestions sorted by display, keeping the first of those with equal displays.
pub open spec fn sort_dedup(v: Seq<SuggestionView>) -> Seq<SuggestionView>
    decreases v.len(),
{
    if v.len() == 0 {
        seq![]
    } else {
        insert_by_display(sort_dedup(v.drop_last()), v.last())
    }
}

/// Displays in strictly increasing order.
pub open spec fn displays_strictly_sorted(s: Seq<SuggestionView>) -> bool {
    forall|i: int, j: int| 0 <= i < j < s.len() ==> text::seq_lt(#[trigger] s[i].display, #[trigger] s[j].display)
}

proof fn lemma_insert_by_display(out: Seq<SuggestionView>, x: SuggestionView)
    requires
        displays_strictly_sorted(out),
    ensures
        displays_strictly_sorted(insert_by_display(out, x)),
        forall|y: SuggestionView| #[trigger] insert_by_display(out, x).contains(y) ==> out.contains(y) || y == x,
        forall|y: SuggestionView| out.contains(y) ==> #[trigger] insert_by_display(out, x).contains(y),
        exists|k: int| 0 <= k < insert_by_display(out, x).len() && #[trigger] insert_by_display(out, x)[k].display == x.display,
    decreases out.len(),
{
    let r = insert_by_display(out, x);
    if out.len() == 0 {
        assert(r[0] == x);
    } else if text::seq_lt(out[0].display, x.display) {
        let rest = out.drop_first();
        assert forall|i: int, j: int| 0 <= i < j < rest.len() implies text::seq_lt(
            #[trigger] rest[i].display,
            #[trigger] rest[j].display,
        ) by {
            assert(rest[i] == out[i + 1] && rest[j] == out[j + 1]);
        }
        lemma_insert_by_display(rest, x);
        let t = insert_by_display(rest, x);
        assert(r == seq![out[0]] + t);
        assert forall|i: int, j: int| 0 <= i < j < r.len() implies text::seq_lt(
            #[trigger] r[i].display,
            #[trigger] r[j].display,
        ) by {
            if i == 0 {
                assert(r[j] == t[j - 1]);
                assert(t.contains(t[j - 1]));
                if t[j - 1] != x {
                    assert(rest.contains(t[j - 1]));
                    let m = choose|m: int| 0 <= m < rest.len() && rest[m] == t[j - 1];
                    assert(out[m + 1] == rest[m]);
                }
            } else {
                assert(r[i] == t[i - 1] && r[j] == t[j - 1]);
            }
        }
        assert forall|y: SuggestionView| #[trigger] r.contains(y) implies out.contains(y) || y == x by {
            let m = choose|m: int| 0 <= m < r.len() && r[m] == y;
            if m > 0 {
                assert(t[m - 1] == y);
                assert(t.contains(y));
                if y != x {
                    let q = choose|q: int| 0 <= q < rest.len() && rest[q] == y;
                    assert(out[q + 1] == y);
                }
            }
        }
        assert forall|y: SuggestionView| out.contains(y) implies #[trigger] r.contains(y) by {
            let m = choose|m: int| 0 <= m < out.len() && out[m] == y;
            if m == 0 {
                assert(r[0] == y);
            } else {
                assert(rest[m - 1] == y);
                assert(rest.contains(y));
                assert(t.contains(y));
                let q = choose|q: int| 0 <= q < t.len() && t[q] == y;
                assert(r[q + 1] == y);
            }
        }
        let k = choose|k: int| 0 <= k < t.len() && #[trigger] t[k].display == x.display;
        assert(r[k + 1] == t[k]);
    } else if out[0].display == x.display {
        assert(r[0].display == x.display);
    } else {
        text::lemma_lt_total(out[0].display, x.display);
        assert(r == seq![x] + out);
        assert forall|i: int, j: int| 0 <= i < j < r.len() implies text::seq_lt(
            #[trigger] r[i].display,
            #[trigger] r[j].display,
        ) by {
            if i == 0 {
                assert(r[j] == out[j - 1]);
                if j > 1 {
                    text::lemma_lt_trans(x.display, out[0].display, out[j - 1].display);
                }
            } else {
                assert(r[i] == out[i - 1] && r[j] == out[j - 1]);
            }
        }
        assert forall|y: SuggestionView| #[trigger] r.contains(y) implies out.contains(y) || y == x by {
            let m = choose|m: int| 0 <= m < r.len() && r[m] == y;
            if m > 0 {
                assert(out[m - 1] == y);
            }
        }
        assert forall|y: SuggestionView| out.contains(y) implies #[trigger] r.contains(y) by {
            let m = choose|m: int| 0 <= m < out.len() && out[m] == y;
            assert(r[m + 1] == y);
        }
        assert(r[0] == x);
    }
}

/// Suggestions come out sorted by display, each display once, each one of those
/// that went in, and every display that went in comes out.
pub proof fn lemma_sort_dedup_ordered(v: Seq<SuggestionView>)
    ensures
        displays_strictly_sorted(sort_dedup(v)),
        forall|y: SuggestionView| #[trigger] sort_dedup(v).contains(y) ==> v.contains(y),
        forall|i: int|
            0 <= i < v.len() ==> exists|k: int|
                0 <= k < sort_dedup(v).len() && #[trigger] sort_dedup(v)[k].display == (#[trigger] v[i]).display,
    decreases v.len(),
{
    if v.len() > 0 {
        let p = v.drop_last();
        let x = v.last();
        lemma_sort_dedup_ordered(p);
        let d = sort_dedup(p);
        lemma_insert_by_display(d, x);
        let r = sort_dedup(v);
        assert(r == insert_by_display(d, x));
        assert forall|y: SuggestionView| #[trigger] r.contains(y) implies v.contains(y) by {
            if y == x {
                assert(v[v.len() - 1] == y);
            } else {
                assert(d.contains(y));
                assert(p.contains(y));
                let m = choose|m: int| 0 <= m < p.len() && p[m] == y;
                assert(v[m] == y);
            }
        }
        assert forall|i: int| 0 <= i < v.len() implies exists|k: int|
            0 <= k < r.len() && #[trigger] r[k].display == (#[trigger] v[i]).display by {
            if i == v.len() - 1 {
                let k = choose|k: int| 0 <= k < r.len() && #[trigger] r[k].display == x.display;
                assert(r[k].display == v[i].display);
            } else {
                assert(p[i] == v[i]);
                let k = choose|k: int| 0 <= k < d.len() && #[trigger] d[k].display == (#[trigger] p[i]).display;
                assert(d.contains(d[k]));
                assert(r.contains(d[k]));
                let q = choose|q: int| 0 <= q < r.len() && r[q] == d[k];
                assert(r[q].display == v[i].display);
            }
        }
    }
}

fn insert_display(out: &mut Vec<FilterSuggestion>, x: FilterSuggestion)
    ensures
        suggestions_view(final(out)@) == insert_by_display(suggestions_view(old(out)@), x@),
{
    let ghost o = suggestions_view(out@);
    let mut p: usize = 0;
    assert(o.skip(0) =~= o);
    assert(o.take(0) + insert_by_display(o.skip(0), x@) =~= insert_by_display(o, x@));
    while p < out.len() && text::str_lt(out[p].display.as_str(), x.display.as_str())
        invariant
            o == suggestions_view(out@),
            0 <= p <= out.len(),
            insert_by_display(o, x@) == o.take(p as int) + insert_by_display(o.skip(p as int), x@),
        decreases out.len() - p,
    {
        proof {
            let t = o.skip(p as int);
            assert(t.drop_first() =~= o.skip(p + 1));
            assert(o.take(p + 1) =~= o.take(p as int).push(o[p as int]));
            assert(o.take(p as int) + (seq![t[0]] + insert_by_display(t.drop_first(), x@))
                =~= o.take(p + 1) + insert_by_display(o.skip(p + 1), x@));
        }
        p = p + 1;
    }
    if p < out.len() && text::str_eq(out[p].display.as_str(), x.display.as_str()) {
        proof {
            assert(o.take(p as int) + o.skip(p as int) =~= o);
        }
        return;
    }
    out.insert(p, x);
    proof {
        if p < o.len() {
            assert(insert_by_display(o.skip(p as int), x@) == seq![x@] + o.skip(p as int));
        } else {
            assert(o.skip(p as int) =~= Seq::<SuggestionView>::empty());
        }
        assert(suggestions_view(out@) =~= o.take(p as int) + (seq![x@] + o.skip(p as int)));
    }
}

/// Sorts suggestions by display and drops later ones whose display repeats.
fn sort_and_dedup(suggestions: Vec<FilterSuggestion>) -> (r: Vec<FilterSuggestion>)
    ensures
        suggestions_view(r@) == sort_dedup(suggestions_view(suggestions@)),
{
    let ghost input = suggestions_view(suggestions@);
    let mut out: Vec<FilterSuggestion> = Vec::new();
    let mut i: usize = 0;
    assert(input.take(0) =~= Seq::<SuggestionView>::empty());
    assert(suggestions_view(out@) =~= sort_dedup(input.take(0)));
    while i < suggestions.len()
        invariant
            input == suggestions_view(suggestions@),
            0 <= i <= suggestions.len(),
            suggestions_view(out@) == sort_dedup(input.take(i as int)),
        decreases suggestions.len() - i,
    {
        let x = FilterSuggestion {
            replacement: suggestions[i].replacement.clone(),
            display: suggestions[i].display.clone(),
            kind: suggestions[i].kind,
        };
        insert_display(&mut out, x);
        proof {
            assert(input.take(i + 1).drop_last() =~= input.take(i as int));
            assert(input.take(i + 1).last() == x@);
        }
        i = i + 1;
    }
    assert(input.take(i as int) =~= input);
    out
}

/// Inserts a status into an ascending list unless it is there.
pub open spec fn insert_status(out: Seq<u16>, x: u16) -> Seq<u16>
    decreases out.len(),
{
    if out.len() == 0 {
        seq![x]
    } else if out[0] < x {
        seq![out[0]] + insert_status(out.drop_first(), x)
    } else if out[0] == x {
        out
    } else {
        seq![x] + out
    }
}

/// The statuses in ascending order, each once.
pub open spec fn sorted_statuses(v: Seq<u16>) -> Seq<u16>
    decreases v.len(),
{
    if v.len() == 0 {
        seq![]
    } else {
        insert_status(sorted_statuses(v.drop_last()), v.last())
    }
}

/// Statuses in strictly ascending order.
pub open spec fn strictly_ascending(s: Seq<u16>) -> bool {
    forall|i: int, j: int| 0 <= i < j < s.len() ==> #[trigger] s[i] < #[trigger] s[j]
}

proof fn lemma_insert_status(out: Seq<u16>, x: u16)
    requires
        strictly_ascending(out),
    ensures
        strictly_ascending(insert_status(out, x)),
        forall|y: u16| #[trigger] insert_status(out, x).contains(y) <==> (out.contains(y) || y == x),
    decreases out.len(),
{
    let r = insert_status(out, x);
    if out.len() == 0 {
        assert(r[0] == x);
    } else if out[0] < x {
        let rest = out.drop_first();
        assert forall|i: int, j: int| 0 <= i < j < rest.len() implies #[trigger] rest[i] < #[trigger] rest[j] by {
            assert(rest[i] == out[i + 1] && rest[j] == out[j + 1]);
        }
        lemma_insert_status(rest, x);
        let t = insert_status(rest, x);
        assert(r == seq![out[0]] + t);
        assert forall|i: int, j: int| 0 <= i < j < r.len() implies #[trigger] r[i] < #[trigger] r[j] by {
            if i == 0 {
                assert(r[j] == t[j - 1]);
                assert(t.contains(t[j - 1]));
                if t[j - 1] != x {
                    let m = choose|m: int| 0 <= m < rest.len() && rest[m] == t[j - 1];
                    assert(out[m + 1] == rest[m]);
                }
            } else {
                assert(r[i] == t[i - 1] && r[j] == t[j - 1]);
            }
        }
        assert forall|y: u16| #[trigger] r.contains(y) <==> (out.contains(y) || y == x) by {
            if r.contains(y) {
                let m = choose|m: int| 0 <= m < r.len() && r[m] == y;
                if m > 0 {
                    assert(t[m - 1] == y);
                    assert(t.contains(y));
                    if y != x {
                        let q = choose|q: int| 0 <= q < rest.len() && rest[q] == y;
                        assert(out[q + 1] == y);
                    }
                }
            }
            if out.contains(y) {
                let m = choose|m: int| 0 <= m < out.len() && out[m] == y;
                if m == 0 {
                    assert(r[0] == y);
                } else {
                    assert(rest[m - 1] == y);
                    assert(t.contains(y));
                    let q = choose|q: int| 0 <= q < t.len() && t[q] == y;
                    assert(r[q + 1] == y);
                }
            }
            if y == x {
                assert(t.contains(x));
                let q = choose|q: int| 0 <= q < t.len() && t[q] == x;
                assert(r[q + 1] == x);
            }
        }
    } else if out[0] == x {
        assert forall|y: u16| #[trigger] r.contains(y) <==> (out.contains(y) || y == x) by {
            if y == x {
                assert(r[0] == x);
            }
        }
    } else {
        assert(r == seq![x] + out);
        assert forall|i: int, j: int| 0 <= i < j < r.len() implies #[trigger] r[i] < #[trigger] r[j] by {
            if i == 0 {
                assert(r[j] == out[j - 1]);
                if j > 1 {
                    assert(out[0] < out[j - 1]);
                }
            } else {
                assert(r[i] == out[i - 1] && r[j] == out[j - 1]);
            }
        }
        assert forall|y: u16| #[trigger] r.contains(y) <==> (out.contains(y) || y == x) by {
            if r.contains(y) {
                let m = choose|m: int| 0 <= m < r.len() && r[m] == y;
                if m > 0 {
                    assert(out[m - 1] == y);
                }
            }
            if out.contains(y) {
                let m = choose|m: int| 0 <= m < out.len() && out[m] == y;
                assert(r[m + 1] == y);
            }
            if y == x {
                assert(r[0] == x);
            }
        }
    }
}

/// Statuses come out in strictly ascending order, exactly those that went in.
pub proof fn lemma_sorted_statuses_ascending(v: Seq<u16>)
    ensures
        strictly_ascending(sorted_statuses(v)),
        forall|y: u16| #[trigger] sorted_statuses(v).contains(y) <==> v.contains(y),
    decreases v.len(),
{
    if v.len() > 0 {
        let p = v.drop_last();
        lemma_sorted_statuses_ascending(p);
        lemma_insert_status(sorted_statuses(p), v.last());
        assert forall|y: u16| #[trigger] sorted_statuses(v).contains(y) <==> v.contains(y) by {
            if v.contains(y) && y != v.last() {
                let m = choose|m: int| 0 <= m < v.len() && v[m] == y;
                assert(p[m] == y);
                assert(p.contains(y));
            }
            if p.contains(y) {
                let m = choose|m: int| 0 <= m < p.len() && p[m] == y;
                assert(v[m] == y);
            }
            if y == v.last() {
                assert(v[v.len() - 1] == y);
            }
        }
    }
}

fn sort_statuses(v: &[u16]) -> (r: Vec<u16>)
    ensures
        r@ == sorted_statuses(v@),
{
    let mut out: Vec<u16> = Vec::new();
    let mut i: usize = 0;
    assert(v@.take(0) =~= Seq::<u16>::empty());
    while i < v.len()
        invariant
            0 <= i <= v.len(),
            out@ == sorted_statuses(v@.take(i as int)),
        decreases v.len() - i,
    {
        let x = v[i];
        let ghost o = out@;
        let mut p: usize = 0;
        assert(o.skip(0) =~= o);
        assert(o.take(0) + insert_status(o.skip(0), x) =~= insert_status(o, x));
        while p < out.len() && out[p] < x
            invariant
                o == out@,
                0 <= p <= out.len(),
                insert_status(o, x) == o.take(p as int) + insert_status(o.skip(p as int), x),
            decreases out.len() - p,
        {
            proof {
                let t = o.skip(p as int);
                assert(t.drop_first() =~= o.skip(p + 1));
                assert(o.take(p as int) + (seq![t[0]] + insert_status(t.drop_first(), x))
                    =~= o.take(p + 1) + insert_status(o.skip(p + 1), x));
            }
            p = p + 1;
        }
        if !(p < out.len() && out[p] == x) {
            out.insert(p, x);
            proof {
                if p < o.len() {
                    assert(insert_status(o.skip(p as int), x) == seq![x] + o.skip(p as int));
                } else {
                    assert(o.skip(p as int) =~= Seq::<u16>::empty());
                }
                assert(out@ =~= o.take(p as int) + (seq![x] + o.skip(p as int)));
            }
        } else {
            assert(o.take(p as int) + o.skip(p as int) =~= o);
        }
        proof {
            assert(v@.take(i + 1).drop_last() =~= v@.take(i as int));
        }
        i = i + 1;
    }
    assert(v@.take(i as int) =~= v@);
    out
}

/// Splits a leading comparison operator off a value; the empty operator when none.
pub open spec fn split_operator_prefix(v: Seq<char>) -> (Seq<char>, Seq<char>) {
    if text::starts_with(v, ">="@) {
        (">="@, v.skip(2))
    } else if text::starts_with(v, "<="@) {
        ("<="@, v.skip(2))
    } else if text::starts_with(v, ">"@) {
        (">"@, v.skip(1))
    } else if text::starts_with(v, "<"@) {
        ("<"@, v.skip(1))
    } else if text::starts_with(v, "="@) {
        ("="@, v.skip(1))
    } else {
        (Seq::empty(), v)
    }
}

fn split_operator(value: &str) -> (r: (String, String))
    ensures
        (r.0@, r.1@) == split_operator_prefix(value@),
{
    let v = text::chars_of(value);
    proof {
        reveal_strlit(">=");
        reveal_strlit("<=");
        reveal_strlit(">");
        reveal_strlit("<");
        reveal_strlit("=");
    }
    if text::has_prefix(value, ">=") {
        (text::to_owned(">="), text::string_of(&v, 2, v.len()))
    } else if text::has_prefix(value, "<=") {
        (text::to_owned("<="), text::string_of(&v, 2, v.len()))
    } else if text::has_prefix(value, ">") {
        (text::to_owned(">"), text::string_of(&v, 1, v.len()))
    } else if text::has_prefix(value, "<") {
        (text::to_owned("<"), text::string_of(&v, 1, v.len()))
    } else if text::has_prefix(value, "=") {
        (text::to_owned("="), text::string_of(&v, 1, v.len()))
    } else {
        (String::new(), value.to_owned())
    }
}

/// Suggestions for the operators that start with `prefix`.
pub open spec fn operator_suggestions(key: Seq<char>, prefix: Seq<char>, kind: SuggestionKind) -> Seq<SuggestionView> {
    suggest(Some(key), operators(), prefix, false, usize::MAX as nat, kind)
}

/// The values offered for `status:`, before sorting.
pub open spec fn status_candidates(prefix: Seq<char>, statuses: Seq<u16>) -> Seq<SuggestionView> {
    let values = sorted_statuses(if statuses.len() == 0 { common_status_buckets() } else { statuses });
    let (op, number_prefix) = split_operator_prefix(prefix);
    let ops = if number_prefix.len() == 0 {
        operator_suggestions("status"@, prefix, SuggestionKind::Status)
    } else {
        Seq::empty()
    };
    ops + with_operator(
        "status"@,
        op,
        values.map_values(|s: u16| text::decimal(s as nat)),
        number_prefix,
        SuggestionKind::Status,
    )
}

/// The values offered for `duration:`, before sorting.
pub open spec fn duration_candidates(prefix: Seq<char>) -> Seq<SuggestionView> {
    let (op, duration_prefix) = split_operator_prefix(prefix);
    let ops = if duration_prefix.len() == 0 {
        operator_suggestions("duration"@, prefix, SuggestionKind::Duration)
    } else {
        Seq::empty()
    };
    ops + with_operator("duration"@, op, duration_presets(), duration_prefix, SuggestionKind::Duration)
}

/// The values offered for `type:`, before sorting.
pub open spec fn content_type_candidates(prefix: Seq<char>, content_types: Seq<Seq<char>>) -> Seq<SuggestionView> {
    suggest(
        Some("type"@),
        content_type_aliases(),
        text::lower(prefix),
        true,
        usize::MAX as nat,
        SuggestionKind::ContentType,
    ) + suggest(
        Some("type"@),
        content_types,
        text::lower(prefix),
        false,
        64,
        SuggestionKind::ContentType,
    )
}

fn operator_list_suggestions(key: &str, prefix: &str, kind: SuggestionKind) -> (r: Vec<FilterSuggestion>)
    ensures
        suggestions_view(r@) == operator_suggestions(key@, prefix@, kind),
{
    let ops = operators_list();
    suggestions_from(&Some(key.to_owned()), ops.as_slice(), prefix, false, usize::MAX, kind)
}

fn append_suggestions(a: &mut Vec<FilterSuggestion>, b: Vec<FilterSuggestion>)
    ensures
        suggestions_view(final(a)@) == suggestions_view(old(a)@) + suggestions_view(b@),
{
    let ghost a0 = a@;
    let ghost b0 = b@;
    let mut b = b;
    a.append(&mut b);
    assert(a@ == a0 + b0);
    assert(suggestions_view(a@) =~= suggestions_view(a0) + suggestions_view(b0));
}


fn status_suggestions(prefix: &str, statuses: &[u16]) -> (r: Vec<FilterSuggestion>)
    ensures
        suggestions_view(r@) == sort_dedup(status_candidates(prefix@, statuses@)),
{
    let values = if statuses.len() == 0 {
        let mut buckets: Vec<u16> = Vec::new();
        buckets.push(200);
        buckets.push(300);
        buckets.push(400);
        buckets.push(500);
        assert(buckets@ =~= common_status_buckets());
        sort_statuses(buckets.as_slice())
    } else {
        sort_statuses(statuses)
    };
    let (op, number_prefix) = split_operator(prefix);
    let mut names: Vec<String> = Vec::new();
    let mut i: usize = 0;
    while i < values.len()
        invariant
            0 <= i <= values.len(),
            text::views(names@) == values@.take(i as int).map_values(|s: u16| text::decimal(s as nat)),
        decreases values.len() - i,
    {
        let ghost old_n = names@;
        names.push(text::decimal_string(values[i] as u64));
        assert(text::views(names@) =~= text::views(old_n).push(text::decimal(values@[i as int] as nat)));
        assert(values@.take(i + 1) =~= values@.take(i as int).push(values@[i as int]));
        assert(text::views(names@) =~= values@.take(i + 1).map_values(
            |s: u16| text::decimal(s as nat),
        ));
        i = i + 1;
    }
    assert(values@.take(i as int) =~= values@);
    let mut all: Vec<FilterSuggestion> = Vec::new();
    if number_prefix.as_str().is_empty() {
        all = operator_list_suggestions("status", prefix, SuggestionKind::Status);
    }
    let tail = operator_value_suggestions(
        "status",
        op.as_str(),
        &names,
        number_prefix.as_str(),
        SuggestionKind::Status,
    );
    let ghost all0 = all@;
    append_suggestions(&mut all, tail);
    proof {
        if number_prefix@.len() != 0 {
            assert(suggestions_view(all0) =~= Seq::<SuggestionView>::empty());
        }
    }
    sort_and_dedup(all)
}

fn duration_suggestions(prefix: &str) -> (r: Vec<FilterSuggestion>)
    ensures
        suggestions_view(r@) == sort_dedup(duration_candidates(prefix@)),
{
    let (op, duration_prefix) = split_operator(prefix);
    let mut all: Vec<FilterSuggestion> = Vec::new();
    if duration_prefix.as_str().is_empty() {
        all = operator_list_suggestions("duration", prefix, SuggestionKind::Duration);
    }
    let presets = duration_presets_list();
    let tail = operator_value_suggestions(
        "duration",
        op.as_str(),
        &presets,
        duration_prefix.as_str(),
        SuggestionKind::Duration,
    );
    let ghost all0 = all@;
    append_suggestions(&mut all, tail);
    proof {
        if duration_prefix@.len() != 0 {
            assert(suggestions_view(all0) =~= Seq::<SuggestionView>::empty());
        }
    }
    sort_and_dedup(all)
}

fn content_type_suggestions(prefix: &str, content_types: &[String]) -> (r: Vec<FilterSuggestion>)
    ensures
        suggestions_view(r@) == sort_dedup(content_type_candidates(prefix@, text::views(content_types@))),
{
    let lower = text::to_lower(prefix);
    let aliases = content_type_aliases_list();
    let key = Some(text::to_owned("type"));
    let mut all = suggestions_from(
        &key,
        aliases.as_slice(),
        lower.as_str(),
        true,
        usize::MAX,
        SuggestionKind::ContentType,
    );
    let tail = suggestions_from(
        &key,
        content_types,
        lower.as_str(),
        false,
        64,
        SuggestionKind::ContentType,
    );
    append_suggestions(&mut all, tail);
    sort_and_dedup(all)
}

/// Key completions for a prefix.
pub open spec fn key_suggestions(prefix: Seq<char>) -> Seq<SuggestionView> {
    suggest(None, filter_keys(), text::lower(prefix), false, usize::MAX as nat, SuggestionKind::Key)
}

/// Completions from a fixed vocabulary, compared case-insensitively.
pub open spec fn static_suggestions(key: Seq<char>, prefix: Seq<char>, values: Seq<Seq<char>>, kind: SuggestionKind) -> Seq<SuggestionView> {
    suggest(Some(key), values, text::lower(prefix), true, usize::MAX as nat, kind)
}

/// Completions from captured values, at most 64.
pub open spec fn dynamic_suggestions(key: Seq<char>, prefix: Seq<char>, values: Seq<Seq<char>>, kind: SuggestionKind) -> Seq<SuggestionView> {
    suggest(Some(key), values, text::lower(prefix), false, 64, kind)
}

/// The suggestions for the text before the cursor within the current token.
pub open spec fn suggestions_for(
    before: Seq<char>,
    hosts: Seq<Seq<char>>,
    statuses: Seq<u16>,
    content_types: Seq<Seq<char>>,
) -> Seq<SuggestionView> {
    match text::split_once(before, ':') {
        None => key_suggestions(before),
        Some((key, value_prefix)) => {
            if key == "method"@ {
                static_suggestions("method"@, value_prefix, methods(), SuggestionKind::Method)
            } else if key == "host"@ {
                dynamic_suggestions("host"@, value_prefix, hosts, SuggestionKind::Host)
            } else if key == "path"@ {
                Seq::empty()
            } else if key == "status"@ {
                sort_dedup(status_candidates(value_prefix, statuses))
            } else if key == "type"@ {
                sort_dedup(content_type_candidates(value_prefix, content_types))
            } else if key == "has"@ {
                static_suggestions("has"@, value_prefix, has_values(), SuggestionKind::HasValue)
            } else if key == "error"@ {
                static_suggestions("error"@, value_prefix, booleans(), SuggestionKind::Boolean)
            } else if key == "tls"@ {
                static_suggestions("tls"@, value_prefix, booleans(), SuggestionKind::Boolean)
            } else if key == "duration"@ {
                sort_dedup(duration_candidates(value_prefix))
            } else {
                key_suggestions(key)
            }
        },
    }
}

fn key_suggestions_exec(prefix: &str) -> (r: Vec<FilterSuggestion>)
    ensures
        suggestions_view(r@) == key_suggestions(prefix@),
{
    let keys = filter_keys_list();
    let lower = text::to_lower(prefix);
    suggestions_from(&None, keys.as_slice(), lower.as_str(), false, usize::MAX, SuggestionKind::Key)
}

fn static_suggestions_exec(key: &str, prefix: &str, values: &Vec<String>, kind: SuggestionKind) -> (r: Vec<FilterSuggestion>)
    ensures
        suggestions_view(r@) == static_suggestions(key@, prefix@, text::views(values@), kind),
{
    let lower = text::to_lower(prefix);
    suggestions_from(&Some(key.to_owned()), values.as_slice(), lower.as_str(), true, usize::MAX, kind)
}

/// Completions for the token under the cursor.
pub fn build_filter_suggestions(text: &str, cursor: usize, index: &FilterIndex) -> (r: Vec<FilterSuggestion>)
    ensures
        suggestions_view(r@) == suggestions_for(
            before_cursor(text@, cursor as int),
            text::views(index.hosts@),
            index.statuses@,
            text::views(index.content_types@),
        ),
{
    let v = text::chars_of(text);
    let n = text::str_len(text);
    let offs = text::boundary_offsets(&v);
    let k = text::cursor_char_index(&offs, &v, cursor);
    let (a, _b) = token_chars(&v, k);
    let before = text::string_of(&v, a, k);
    match text::split_once_char(before.as_str(), ':') {
        None => key_suggestions_exec(before.as_str()),
        Some((key, value_prefix)) => {
            let kk = key.as_str();
            let vp = value_prefix.as_str();
            if text::str_eq(kk, "method") {
                static_suggestions_exec("method", vp, &methods_list(), SuggestionKind::Method)
            } else if text::str_eq(kk, "host") {
                let lower = text::to_lower(vp);
                suggestions_from(
                    &Some(text::to_owned("host")),
                    index.hosts(),
                    lower.as_str(),
                    false,
                    64,
                    SuggestionKind::Host,
                )
            } else if text::str_eq(kk, "path") {
                let r: Vec<FilterSuggestion> = Vec::new();
                assert(suggestions_view(r@) =~= Seq::<SuggestionView>::empty());
                r
            } else if text::str_eq(kk, "status") {
                status_suggestions(vp, index.statuses())
            } else if text::str_eq(kk, "type") {
                content_type_suggestions(vp, index.content_types())
            } else if text::str_eq(kk, "has") {
                static_suggestions_exec("has", vp, &has_values_list(), SuggestionKind::HasValue)
            } else if text::str_eq(kk, "error") {
                static_suggestions_exec("error", vp, &booleans_list(), SuggestionKind::Boolean)
            } else if text::str_eq(kk, "tls") {
                static_suggestions_exec("tls", vp, &booleans_list(), SuggestionKind::Boolean)
            } else if text::str_eq(kk, "duration") {
                duration_suggestions(vp)
            } else {
                key_suggestions_exec(kk)
            }
        },
    }
}

// ---------------------------------------------------------------------------
// Live validation
// ---------------------------------------------------------------------------

/// A value still being typed towards one of the candidates: not one of them yet
/// (ignoring case), but a prefix of one.
pub open spec fn prefixed_by(value: Seq<char>, candidates: Seq<Seq<char>>) -> bool {
    let v = text::lower(value);
    &&& !(exists|i: int| 0 <= i < candidates.len() && text::eq_ignore_case(#[trigger] candidates[i], v))
    &&& exists|i: int| 0 <= i < candidates.len() && text::starts_with(text::lower(#[trigger] candidates[i]), v)
}

/// A token that is not complete yet: a prefix of a key, or a key still waiting for
/// (the rest of) its value.
pub open spec fn is_incomplete_token(token: Seq<char>) -> bool {
    match text::split_once(token, ':') {
        None => {
            let p = text::lower(token);
            p.len() > 0 && exists|i: int| 0 <= i < filter_keys().len() && text::starts_with(#[trigger] filter_keys()[i], p)
        },
        Some((key, value)) => {
            if key == "method"@ {
                value.len() == 0 || prefixed_by(value, methods())
            } else if key == "host"@ || key == "path"@ || key == "type"@ {
                value.len() == 0
            } else if key == "status"@ || key == "duration"@ {
                value.len() == 0 || value == "<"@ || value == "<="@ || value == ">"@ || value == ">="@ || value == "="@
            } else if key == "has"@ {
                value.len() == 0 || prefixed_by(value, has_values())
            } else if key == "error"@ || key == "tls"@ {
                value.len() == 0 || prefixed_by(value, booleans())
            } else {
                false
            }
        },
    }
}

/// The model of a parse state.
pub enum ParseStateModel {
    Valid,
    Incomplete,
    Invalid(Seq<char>),
}

impl View for FilterParseState {
    type V = ParseStateModel;

    open spec fn view(&self) -> ParseStateModel {
        match self {
            FilterParseState::Valid => ParseStateModel::Valid,
            FilterParseState::Incomplete => ParseStateModel::Incomplete,
            FilterParseState::Invalid(e) => ParseStateModel::Invalid(e@),
        }
    }
}

/// Blank text is valid; a token still being typed makes the text incomplete;
/// otherwise the text is valid exactly when it parses.
pub open spec fn parse_state_of(s: Seq<char>) -> ParseStateModel {
    if text::trim(s).len() == 0 {
        ParseStateModel::Valid
    } else if exists|i: int| 0 <= i < text::words(s).len() && is_incomplete_token(#[trigger] text::words(s)[i]) {
        ParseStateModel::Incomplete
    } else {
        match parse_filter(s) {
            Ok(_) => ParseStateModel::Valid,
            Err(e) => ParseStateModel::Invalid(e),
        }
    }
}

fn any_eq_ignore_case(candidates: &Vec<String>, v: &str) -> (r: bool)
    ensures
        r == exists|i: int| 0 <= i < candidates@.len() && text::eq_ignore_case(#[trigger] text::views(candidates@)[i], v@),
{
    let mut i: usize = 0;
    while i < candidates.len()
        invariant
            0 <= i <= candidates.len(),
            forall|j: int| 0 <= j < i ==> !text::eq_ignore_case(#[trigger] text::views(candidates@)[j], v@),
        decreases candidates.len() - i,
    {
        if text::eq_ignore_case_str(candidates[i].as_str(), v) {
            assert(text::views(candidates@)[i as int] == candidates@[i as int]@);
            return true;
        }
        i = i + 1;
    }
    false
}

fn any_starts_with(candidates: &Vec<String>, p: &str, fold: bool) -> (r: bool)
    ensures
        r == exists|i: int| 0 <= i < candidates@.len() && text::starts_with(
            if fold { text::lower(#[trigger] text::views(candidates@)[i]) } else { text::views(candidates@)[i] },
            p@,
        ),
{
    let mut i: usize = 0;
    while i < candidates.len()
        invariant
            0 <= i <= candidates.len(),
            forall|j: int| 0 <= j < i ==> !text::starts_with(
                if fold { text::lower(#[trigger] text::views(candidates@)[j]) } else { text::views(candidates@)[j] },
                p@,
            ),
        decreases candidates.len() - i,
    {
        let c = if fold { text::to_lower(candidates[i].as_str()) } else { candidates[i].clone() };
        assert(text::views(candidates@)[i as int] == candidates@[i as int]@);
        if text::has_prefix(c.as_str(), p) {
            return true;
        }
        i = i + 1;
    }
    false
}

fn prefixed_by_exec(value: &str, candidates: &Vec<String>) -> (r: bool)
    ensures
        r == prefixed_by(value@, text::views(candidates@)),
{
    let v = text::to_lower(value);
    let a = any_eq_ignore_case(candidates, v.as_str());
    let b = any_starts_with(candidates, v.as_str(), true);
    !a && b
}

fn is_incomplete(token: &str) -> (r: bool)
    ensures
        r == is_incomplete_token(token@),
{
    match text::split_once_char(token, ':') {
        None => {
            let p = text::to_lower(token);
            let keys = filter_keys_list();
            !p.as_str().is_empty() && any_starts_with(&keys, p.as_str(), false)
        },
        Some((key, value)) => {
            let k = key.as_str();
            let v = value.as_str();
            if text::str_eq(k, "method") {
                v.is_empty() || prefixed_by_exec(v, &methods_list())
            } else if text::str_eq(k, "host") || text::str_eq(k, "path") || text::str_eq(k, "type") {
                v.is_empty()
            } else if text::str_eq(k, "status") || text::str_eq(k, "duration") {
                v.is_empty() || text::str_eq(v, "<") || text::str_eq(v, "<=") || text::str_eq(v, ">")
                    || text::str_eq(v, ">=") || text::str_eq(v, "=")
            } else if text::str_eq(k, "has") {
                v.is_empty() || prefixed_by_exec(v, &has_values_list())
            } else if text::str_eq(k, "error") || text::str_eq(k, "tls") {
                v.is_empty() || prefixed_by_exec(v, &booleans_list())
            } else {
                false
            }
        },
    }
}

/// Classifies filter text while it is typed.
pub fn filter_parse_state(text: &str) -> (r: FilterParseState)
    ensures
        r@ == parse_state_of(text@),
{
    let t = text::trim_str(text);
    if t.as_str().is_empty() {
        return FilterParseState::Valid;
    }
    let tokens = text::split_ws(text);
    let mut i: usize = 0;
    while i < tokens.len()
        invariant
            0 <= i <= tokens.len(),
            text::views(tokens@) == text::words(text@),
            text::words(text@).len() == tokens@.len(),
            text::trim(text@).len() != 0,
            forall|j: int| 0 <= j < i ==> !is_incomplete_token(#[trigger] text::words(text@)[j]),
        decreases tokens.len() - i,
    {
        assert(text::words(text@)[i as int] == tokens@[i as int]@);
        if is_incomplete(tokens[i].as_str()) {
            assert(is_incomplete_token(text::words(text@)[i as int]));
            return FilterParseState::Incomplete;
        }
        i = i + 1;
    }
    match TrafficFilter::parse(text) {
        Ok(_) => FilterParseState::Valid,
        Err(error) => FilterParseState::Invalid(error),
    }
}

} // verus!
