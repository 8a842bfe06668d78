//! Sizes for humans, shell-quoted curl commands and the plain-text report.

use crate::capture::model::{entry_url, status_label_of, opt_view, TrafficEntry, TrafficEntryView};
use crate::capture::redact::{redact_headers, redacted_entry, redacted_headers, RedactionConfig, RedactionModel};
use crate::text;
use vstd::prelude::*;

verus! {

// ---------------------------------------------------------------------------
// Sizes
// ---------------------------------------------------------------------------

/// Two to the power `k`.
pub open spec fn two_pow(k: nat) -> nat
    decreases k,
{
    if k == 0 {
        1
    } else {
        2 * two_pow((k - 1) as nat)
    }
}

/// The number of binary digits of `n`.
pub open spec fn bit_len(n: nat) -> nat
    decreases n,
{
    if n == 0 {
        0
    } else {
        1 + bit_len(n / 2)
    }
}

/// `num / den` rounded to the nearest integer, ties to the even one.
pub open spec fn round_half_even(num: nat, den: nat) -> nat {
    let q = num / den;
    let r = num % den;
    if 2 * r > den || (2 * r == den && q % 2 == 1) {
        q + 1
    } else {
        q
    }
}

/// The value of `n as f64`: `n` rounded to 53 significant bits, ties to even.
pub open spec fn as_f64(n: nat) -> nat {
    if bit_len(n) <= 53 {
        n
    } else {
        let unit = two_pow((bit_len(n) - 53) as nat);
        round_half_even(n, unit) * unit
    }
}

/// A number of tenths written with one decimal: `12.3`.
pub open spec fn one_decimal(tenths: nat) -> Seq<char> {
    text::decimal(tenths / 10) + "."@ + text::decimal(tenths % 10)
}

/// A byte count as `format_size` writes it: bytes below 1024, else kibibytes below
/// one mebibyte, else mebibytes, with one decimal rounded as `{:.1}` rounds the
/// floating-point quotient (to nearest, ties to even).
pub open spec fn size_label(size: u64) -> Seq<char> {
    if size < 1024 {
        text::decimal(size as nat) + " B"@
    } else if as_f64(size as nat) < 1048576 {
        one_decimal(round_half_even(as_f64(size as nat) * 10, 1024)) + " KB"@
    } else {
        one_decimal(round_half_even(as_f64(size as nat) * 10, 1048576)) + " MB"@
    }
}

proof fn lemma_bit_len_bound(n: nat, k: nat)
    requires
        n < two_pow(k),
    ensures
        bit_len(n) <= k,
    decreases k,
{
    if k > 0 && n > 0 {
        lemma_bit_len_bound(n / 2, (k - 1) as nat);
    }
}

proof fn lemma_round_bound(num: nat, den: nat)
    requires
        den > 0,
    ensures
        round_half_even(num, den) <= num / den + 1,
        round_half_even(num, den) * den <= num + den,
{
    let q = num / den;
    assert(q * den <= num) by (nonlinear_arith)
        requires
            q == num / den,
            den > 0,
    ;
    assert((q + 1) * den == q * den + den) by (nonlinear_arith);
}

fn round_half_even_exec(num: u128, den: u128) -> (r: u128)
    requires
        den > 0,
        den < 0x1_0000_0000_0000_0000,
        num < 0x1_0000_0000_0000_0000_0000,
    ensures
        r == round_half_even(num as nat, den as nat),
{
    let q = num / den;
    let r = num % den;
    proof {
        lemma_round_bound(num as nat, den as nat);
    }
    if 2 * r > den || (2 * r == den && q % 2 == 1) {
        q + 1
    } else {
        q
    }
}

fn bit_length(n: u64) -> (b: u32)
    ensures
        b == bit_len(n as nat),
        b <= 64,
{
    proof {
        reveal_with_fuel(two_pow, 65);
        assert(two_pow(64) == 0x1_0000_0000_0000_0000);
        lemma_bit_len_bound(n as nat, 64);
    }
    let mut x = n;
    let mut b: u32 = 0;
    while x > 0
        invariant
            bit_len(n as nat) == b + bit_len(x as nat),
            bit_len(n as nat) <= 64,
        decreases x,
    {
        x = x / 2;
        b = b + 1;
    }
    b
}

/// `n as f64`, as an exact integer.
fn as_f64_exec(n: u64) -> (r: u128)
    ensures
        r == as_f64(n as nat),
        r <= 0x1_0000_0000_0000_0000 + 2048,
{
    let b = bit_length(n);
    if b <= 53 {
        return n as u128;
    }
    let k = b - 53;
    let mut p: u128 = 1;
    let mut j: u32 = 0;
    while j < k
        invariant
            0 <= j <= k <= 11,
            p == two_pow(j as nat),
            1 <= p <= 2048,
        decreases k - j,
    {
        proof {
            reveal_with_fuel(two_pow, 12);
            assert(two_pow((j + 1) as nat) == 2 * two_pow(j as nat));
            if j + 1 <= 11 {
                lemma_two_pow_mono((j + 1) as nat, 11);
            }
        }
        p = p * 2;
        j = j + 1;
    }
    proof {
        lemma_round_bound(n as nat, p as nat);
    }
    let q = round_half_even_exec(n as u128, p);
    q * p
}

proof fn lemma_two_pow_mono(a: nat, b: nat)
    requires
        a <= b,
    ensures
        two_pow(a) <= two_pow(b),
    decreases b,
{
    if a < b {
        lemma_two_pow_mono(a, (b - 1) as nat);
    }
}

/// A byte count for humans: `512 B`, `1.5 KB`, `2.0 MB`.
pub fn format_size(size: u64) -> (r: String)
    ensures
        r@ == size_label(size),
{
    let mut r = String::new();
    if size < 1024 {
        text::push_decimal(&mut r, size);
        text::push_str(&mut r, " B");
        return r;
    }
    let f = as_f64_exec(size);
    let unit: u128 = if f < 1048576 {
        1024
    } else {
        1048576
    };
    proof {
        lemma_round_bound((f * 10) as nat, unit as nat);
        let num: nat = (f * 10) as nat;
        let den: nat = unit as nat;
        assert(num / den <= num / 1024) by (nonlinear_arith)
            requires
                den >= 1024,
        ;
    }
    let t = round_half_even_exec(f * 10, unit);
    text::push_decimal(&mut r, (t / 10) as u64);
    text::push_str(&mut r, ".");
    text::push_decimal(&mut r, (t % 10) as u64);
    if f < 1048576 {
        text::push_str(&mut r, " KB");
    } else {
        text::push_str(&mut r, " MB");
    }
    r
}

// ---------------------------------------------------------------------------
// curl
// ---------------------------------------------------------------------------

/// Characters that need no quoting in a shell word.
pub open spec fn shell_plain(c: char) -> bool {
    text::is_ascii_alnum(c) || c == '-' || c == '_' || c == '.' || c == '/' || c == ':' || c == '='
        || c == '?' || c == '&' || c == '%' || c == '+'
}

/// Each `'` written as `'\''`, which closes the quote, adds a quote and reopens.
pub open spec fn escape_quotes(s: Seq<char>) -> Seq<char>
    decreases s.len(),
{
    if s.len() == 0 {
        Seq::empty()
    } else {
        escape_quotes(s.drop_last()) + if s.last() == '\'' {
            "'\\''"@
        } else {
            seq![s.last()]
        }
    }
}

/// A word as the shell reads it back: as it is when all its characters are plain,
/// else in single quotes.
pub open spec fn shell_quoted(s: Seq<char>) -> Seq<char> {
    if forall|i: int| 0 <= i < s.len() ==> shell_plain(#[trigger] s[i]) {
        s
    } else {
        "'"@ + escape_quotes(s) + "'"@
    }
}

fn is_shell_plain(c: char) -> (r: bool)
    ensures
        r == shell_plain(c),
{
    ('a' <= c && c <= 'z') || ('A' <= c && c <= 'Z') || ('0' <= c && c <= '9') || c == '-' || c
        == '_' || c == '.' || c == '/' || c == ':' || c == '=' || c == '?' || c == '&' || c == '%'
        || c == '+'
}

/// Quotes a word for the shell.
pub fn shell_quote(value: &str) -> (r: String)
    ensures
        r@ == shell_quoted(value@),
{
    let v = text::chars_of(value);
    let mut plain = true;
    let mut i: usize = 0;
    while i < v.len()
        invariant
            v@ == value@,
            0 <= i <= v@.len(),
            plain == forall|j: int| 0 <= j < i ==> shell_plain(#[trigger] v@[j]),
        decreases v.len() - i,
    {
        if !is_shell_plain(v[i]) {
            plain = false;
        }
        i = i + 1;
    }
    if plain {
        return text::to_owned(value);
    }
    let mut out = text::to_owned("'");
    let mut k: usize = 0;
    proof {
        reveal_strlit("'");
        assert(v@.take(0) =~= Seq::<char>::empty());
    }
    while k < v.len()
        invariant
            v@ == value@,
            0 <= k <= v@.len(),
            out@ == "'"@ + escape_quotes(v@.take(k as int)),
        decreases v.len() - k,
    {
        if v[k] == '\'' {
            text::push_str(&mut out, "'\\''");
        } else {
            text::push_char(&mut out, v[k]);
        }
        proof {
            reveal_strlit("'\\''");
            assert(v@.take(k + 1).drop_last() =~= v@.take(k as int));
        }
        k = k + 1;
    }
    text::push_str(&mut out, "'");
    proof {
        assert(v@.take(v@.len() as int) =~= v@);
    }
    out
}

// ---------------------------------------------------------------------------
// How a POSIX shell reads a quoted word back
// ---------------------------------------------------------------------------

/// A character that a POSIX shell takes literally outside quotes, wherever it stands
/// in a word: letters, digits and `-_./:=%+`.
pub open spec fn shell_literal(c: char) -> bool {
    text::is_ascii_alnum(c) || c == '-' || c == '_' || c == '.' || c == '/' || c == ':' || c == '='
        || c == '%' || c == '+'
}

/// What a POSIX shell reads from `s` as the rest of one word, after quote removal:
/// literal characters, single-quoted text (taken as it is up to the closing quote)
/// and backslash-escaped characters. `None` when `s` holds anything else, such as
/// white space, an operator or an unclosed quote, so that `s` would not be one word.
pub open spec fn shell_word(s: Seq<char>) -> Option<Seq<char>>
    decreases s.len(),
{
    if s.len() == 0 {
        Some(Seq::empty())
    } else if s[0] == '\'' {
        match text::find(s.drop_first(), '\'') {
            Some(k) => if k + 2 <= s.len() {
                match shell_word(s.skip(k + 2int)) {
                    Some(w) => Some(s.subrange(1, k + 1int) + w),
                    None => None,
                }
            } else {
                None
            },
            None => None,
        }
    } else if s[0] == '\\' {
        if s.len() >= 2 && s[1] != '\n' {
            match shell_word(s.skip(2)) {
                Some(w) => Some(seq![s[1]] + w),
                None => None,
            }
        } else {
            None
        }
    } else if shell_literal(s[0]) {
        match shell_word(s.drop_first()) {
            Some(w) => Some(seq![s[0]] + w),
            None => None,
        }
    } else {
        None
    }
}

/// The single argument a POSIX shell reads from `s`: `None` when `s` is empty or is
/// not exactly one word.
pub open spec fn shell_argument(s: Seq<char>) -> Option<Seq<char>> {
    if s.len() == 0 {
        None
    } else {
        shell_word(s)
    }
}

proof fn lemma_escape_quotes_concat(a: Seq<char>, b: Seq<char>)
    ensures
        escape_quotes(a + b) == escape_quotes(a) + escape_quotes(b),
    decreases b.len(),
{
    if b.len() == 0 {
        assert(a + b =~= a);
        assert(escape_quotes(a) + escape_quotes(b) =~= escape_quotes(a));
    } else {
        lemma_escape_quotes_concat(a, b.drop_last());
        assert((a + b).drop_last() =~= a + b.drop_last());
        assert((a + b).last() == b.last());
    }
}

proof fn lemma_escape_quotes_plain(a: Seq<char>)
    requires
        forall|i: int| 0 <= i < a.len() ==> a[i] != '\'',
    ensures
        escape_quotes(a) == a,
    decreases a.len(),
{
    if a.len() > 0 {
        lemma_escape_quotes_plain(a.drop_last());
        assert(a.drop_last() + seq![a.last()] =~= a);
    }
}

proof fn lemma_literal_word(s: Seq<char>)
    requires
        forall|i: int| 0 <= i < s.len() ==> shell_literal(#[trigger] s[i]),
    ensures
        shell_word(s) == Some(s),
    decreases s.len(),
{
    if s.len() > 0 {
        assert forall|i: int| 0 <= i < s.drop_first().len() implies shell_literal(#[trigger] s.drop_first()[i]) by {
            assert(s.drop_first()[i] == s[i + 1]);
        }
        lemma_literal_word(s.drop_first());
        assert(shell_literal(s[0]));
        assert(seq![s[0]] + s.drop_first() =~= s);
    }
}

/// A quoted text followed by `t` reads as the text followed by what `t` reads as.
proof fn lemma_quoted_reads_back(s: Seq<char>, t: Seq<char>)
    ensures
        shell_word("'"@ + escape_quotes(s) + "'"@ + t) == match shell_word(t) {
            Some(w) => Some(s + w),
            None => None::<Seq<char>>,
        },
    decreases s.len(),
{
    reveal_strlit("'");
    reveal_strlit("'\\''");
    text::lemma_find_bounds(s, '\'');
    match text::find(s, '\'') {
        None => {
            lemma_escape_quotes_plain(s);
            let x = "'"@ + s + "'"@ + t;
            assert(x.drop_first() =~= s + "'"@ + t);
            assert forall|j: int| 0 <= j < s.len() implies x.drop_first()[j] != '\'' by {
                assert(x.drop_first()[j] == s[j]);
            }
            assert(x.drop_first()[s.len() as int] == '\'');
            text::lemma_find_at(x.drop_first(), '\'', s.len() as int);
            assert(x.subrange(1, s.len() + 1int) =~= s);
            assert(x.skip(s.len() + 2int) =~= t);
            assert(x[0] == '\'');
            assert(shell_word(x) == match shell_word(x.skip(s.len() + 2int)) {
                Some(w) => Some(x.subrange(1, s.len() + 1int) + w),
                None => None::<Seq<char>>,
            });
        },
        Some(i) => {
            let p = s.take(i as int);
            let q = s.skip(i + 1int);
            assert(s =~= p + seq!['\''] + q);
            assert forall|j: int| 0 <= j < p.len() implies p[j] != '\'' by {
                assert(p[j] == s[j]);
            }
            lemma_escape_quotes_plain(p);
            lemma_escape_quotes_concat(p + seq!['\''], q);
            lemma_escape_quotes_concat(p, seq!['\'']);
            assert(seq!['\''].drop_last() =~= Seq::<char>::empty());
            assert(escape_quotes(Seq::<char>::empty()) =~= Seq::<char>::empty());
            assert(escape_quotes(seq!['\'']) == escape_quotes(Seq::<char>::empty()) + "'\\''"@);
            assert(escape_quotes(seq!['\'']) =~= "'\\''"@);
            let z = "'"@ + escape_quotes(q) + "'"@ + t;
            let x = "'"@ + escape_quotes(s) + "'"@ + t;
            assert(x =~= "'"@ + p + "'"@ + (seq!['\\', '\''] + z));
            let y = seq!['\\', '\''] + z;
            assert(x.drop_first() =~= p + "'"@ + y);
            assert forall|j: int| 0 <= j < p.len() implies x.drop_first()[j] != '\'' by {
                assert(x.drop_first()[j] == p[j]);
            }
            assert(x.drop_first()[p.len() as int] == '\'');
            text::lemma_find_at(x.drop_first(), '\'', p.len() as int);
            assert(x.subrange(1, p.len() + 1int) =~= p);
            assert(x.skip(p.len() + 2int) =~= y);
            assert(y.skip(2) =~= z);
            lemma_quoted_reads_back(q, t);
            assert(x[0] == '\'');
            assert(shell_word(x) == match shell_word(y) {
                Some(w) => Some(p + w),
                None => None::<Seq<char>>,
            });
            assert(y[0] == '\\' && y[1] == '\'');
            assert(shell_word(y) == match shell_word(z) {
                Some(w) => Some(seq!['\''] + w),
                None => None::<Seq<char>>,
            });
            match shell_word(t) {
                Some(w) => {
                    assert(p + (seq!['\''] + (q + w)) =~= s + w);
                },
                None => {},
            }
        },
    }
}

/// What `shell_quote` writes is read back by a POSIX shell as exactly one argument,
/// the value itself, for every non-empty value without `&` or `?` (which are left
/// unquoted although the shell treats them specially).
pub proof fn lemma_shell_quote_reads_back(s: Seq<char>)
    requires
        s.len() > 0,
        forall|i: int| 0 <= i < s.len() ==> s[i] != '&' && s[i] != '?',
    ensures
        shell_argument(shell_quoted(s)) == Some(s),
{
    reveal_strlit("'");
    if forall|i: int| 0 <= i < s.len() ==> shell_plain(#[trigger] s[i]) {
        assert forall|i: int| 0 <= i < s.len() implies shell_literal(#[trigger] s[i]) by {
            assert(shell_plain(s[i]));
        }
        lemma_literal_word(s);
    } else {
        lemma_quoted_reads_back(s, Seq::empty());
        assert("'"@ + escape_quotes(s) + "'"@ + Seq::<char>::empty() =~= "'"@ + escape_quotes(s) + "'"@);
        assert(s + Seq::<char>::empty() =~= s);
    }
}

/// The character of a six-bit value in the standard base64 alphabet of RFC 4648.
pub open spec fn base64_digit(v: int) -> char {
    if v < 26 {
        (65 + v) as char
    } else if v < 52 {
        (97 + v - 26) as char
    } else if v < 62 {
        (48 + v - 52) as char
    } else if v == 62 {
        '+'
    } else {
        '/'
    }
}

/// Standard, padded base64 (RFC 4648): each three bytes become four characters,
/// and a last one or two bytes are padded with `=`.
pub open spec fn base64_standard(b: Seq<u8>) -> Seq<char>
    decreases b.len(),
{
    if b.len() == 0 {
        Seq::empty()
    } else if b.len() == 1 {
        seq![base64_digit((b[0] as int) / 4), base64_digit(((b[0] as int) % 4) * 16), '=', '=']
    } else if b.len() == 2 {
        seq![
            base64_digit((b[0] as int) / 4),
            base64_digit(((b[0] as int) % 4) * 16 + (b[1] as int) / 16),
            base64_digit(((b[1] as int) % 16) * 4),
            '=',
        ]
    } else {
        seq![
            base64_digit((b[0] as int) / 4),
            base64_digit(((b[0] as int) % 4) * 16 + (b[1] as int) / 16),
            base64_digit(((b[1] as int) % 16) * 4 + (b[2] as int) / 64),
            base64_digit((b[2] as int) % 64),
        ] + base64_standard(b.skip(3))
    }
}

/// Encodes bytes as standard, padded base64 with
/// `base64::engine::general_purpose::STANDARD.encode`, which follows RFC 4648.
#[verifier::external_body]
fn base64_encode(bytes: &[u8]) -> (r: String)
    ensures
        r@ == base64_standard(bytes@),
{
    base64::Engine::encode(&base64::engine::general_purpose::STANDARD, bytes)
}

/// The `-H` arguments for headers; the `Host` header is left out.
pub open spec fn header_args(hs: Seq<(Seq<char>, Seq<char>)>) -> Seq<Seq<char>>
    decreases hs.len(),
{
    if hs.len() == 0 {
        Seq::empty()
    } else {
        let h = hs.last();
        header_args(hs.drop_last()) + if text::eq_ignore_case(h.0, "host"@) {
            Seq::empty()
        } else {
            seq!["-H"@, shell_quoted(h.0 + ": "@ + h.1)]
        }
    }
}

/// The `--data-binary` arguments for a request body: its text when it is UTF-8,
/// else a base64 process substitution; nothing for an empty body.
pub open spec fn body_args(bytes: Seq<u8>) -> Seq<Seq<char>> {
    if bytes.len() == 0 {
        Seq::empty()
    } else if vstd::utf8::valid_utf8(bytes) {
        seq!["--data-binary"@, shell_quoted(vstd::utf8::decode_utf8(bytes))]
    } else {
        seq!["--data-binary"@, shell_quoted("@<(base64 -d <<<'"@ + base64_standard(bytes) + "')"@)]
    }
}

/// The words of the curl command that repeats a request, sensitive headers hidden.
pub open spec fn curl_words(e: TrafficEntryView, c: RedactionModel) -> Seq<Seq<char>> {
    seq!["curl"@, "-X"@, shell_quoted(e.method), shell_quoted(entry_url(e))]
        + header_args(redacted_headers(c, e.request_headers)) + body_args(e.request_body.bytes)
}

/// A curl command that repeats the request, with sensitive headers hidden.
pub fn export_curl(entry: &TrafficEntry, redaction: &RedactionConfig) -> (r: String)
    ensures
        r@ == text::join(curl_words(entry@, redaction@), " "@),
{
    let headers = redact_headers(entry.request_headers.as_slice(), redaction);
    let ghost hs = crate::capture::model::headers_view(headers@);
    let mut parts: Vec<String> = Vec::new();
    parts.push(text::to_owned("curl"));
    parts.push(text::to_owned("-X"));
    parts.push(shell_quote(entry.method.as_str()));
    let url = entry.url();
    parts.push(shell_quote(url.as_str()));
    let ghost base = text::views(parts@);
    proof {
        assert(hs.take(0) =~= Seq::<(Seq<char>, Seq<char>)>::empty());
        assert(base + header_args(hs.take(0)) =~= base);
    }
    let mut i: usize = 0;
    while i < headers.len()
        invariant
            0 <= i <= headers@.len(),
            hs == crate::capture::model::headers_view(headers@),
            text::views(parts@) == base + header_args(hs.take(i as int)),
        decreases headers.len() - i,
    {
        let ghost before = text::views(parts@);
        proof {
            assert(hs.take(i + 1).drop_last() =~= hs.take(i as int));
        }
        if !text::eq_ignore_case_str(headers[i].0.as_str(), "host") {
            let mut h = headers[i].0.clone();
            text::push_str(&mut h, ": ");
            text::push_str(&mut h, headers[i].1.as_str());
            parts.push(text::to_owned("-H"));
            parts.push(shell_quote(h.as_str()));
            proof {
                reveal_strlit(": ");
                reveal_strlit("-H");
                assert(text::views(parts@) =~= before + seq!["-H"@, shell_quoted(hs[i as int].0 + ": "@ + hs[i as int].1)]);
            }
        }
        i = i + 1;
    }
    proof {
        assert(hs.take(headers@.len() as int) =~= hs);
    }
    let ghost mid = text::views(parts@);
    if entry.request_body.bytes.len() > 0 {
        parts.push(text::to_owned("--data-binary"));
        match crate::capture::model::utf8_text(entry.request_body.bytes.as_slice()) {
            Some(t) => {
                parts.push(shell_quote(t.as_str()));
            },
            None => {
                let encoded = base64_encode(entry.request_body.bytes.as_slice());
                let mut w = text::to_owned("@<(base64 -d <<<'");
                text::push_str(&mut w, encoded.as_str());
                text::push_str(&mut w, "')");
                parts.push(shell_quote(w.as_str()));
                proof {
                    reveal_strlit("@<(base64 -d <<<'");
                    reveal_strlit("')");
                }
            },
        }
        proof {
            reveal_strlit("--data-binary");
            assert(text::views(parts@) =~= mid + body_args(entry.request_body.bytes@));
        }
    } else {
        proof {
            assert(mid + body_args(entry.request_body.bytes@) =~= mid);
        }
    }
    proof {
        reveal_strlit("curl");
        reveal_strlit("-X");
        assert(text::views(parts@) =~= curl_words(entry@, redaction@));
    }
    text::join_strings(&parts, " ")
}

// ---------------------------------------------------------------------------
// Text report
// ---------------------------------------------------------------------------

/// The lines of the report for one entry: a summary line, the error if any, and an
/// empty line.
pub open spec fn report_entry(e: TrafficEntryView) -> Seq<char> {
    "#"@ + text::decimal(e.id as nat) + " "@ + e.method + " "@ + entry_url(e) + " "@
        + status_label_of(e.error, e.response_status) + " "@ + size_label(e.response_size) + "\n"@
        + match e.error {
        Some(err) => "error: "@ + err + "\n"@,
        None => Seq::empty(),
    } + "\n"@
}

/// The report of a list of entries.
pub open spec fn report_of(es: Seq<TrafficEntryView>) -> Seq<char>
    decreases es.len(),
{
    if es.len() == 0 {
        Seq::empty()
    } else {
        report_of(es.drop_last()) + report_entry(es.last())
    }
}

/// The plain-text report of captured entries, one block per entry, as the text
/// export writes it.
#[verifier::spinoff_prover]
#[verifier::rlimit(40)]
pub fn export_text_report(entries: &[TrafficEntry], redaction: &RedactionConfig) -> (r: String)
    ensures
        r@ == report_of(entries@.map_values(|e: TrafficEntry| e@)),
{
    let ghost es = entries@.map_values(|e: TrafficEntry| e@);
    let mut out = String::new();
    let mut i: usize = 0;
    proof {
        assert(es.take(0) =~= Seq::<TrafficEntryView>::empty());
    }
    while i < entries.len()
        invariant
            0 <= i <= entries@.len(),
            es == entries@.map_values(|e: TrafficEntry| e@),
            out@ == report_of(es.take(i as int)),
        decreases entries.len() - i,
    {
        let entry = redacted_entry(&entries[i], redaction);
        let ghost before = out@;
        text::push_str(&mut out, "#");
        text::push_decimal(&mut out, entry.id);
        text::push_str(&mut out, " ");
        text::push_str(&mut out, entry.method.as_str());
        text::push_str(&mut out, " ");
        let url = entry.url();
        text::push_str(&mut out, url.as_str());
        text::push_str(&mut out, " ");
        let label = entry.status_label();
        text::push_str(&mut out, label.as_str());
        text::push_str(&mut out, " ");
        let size = format_size(entry.response_size);
        text::push_str(&mut out, size.as_str());
        text::push_str(&mut out, "\n");
        match &entry.error {
            Some(err) => {
                text::push_str(&mut out, "error: ");
                text::push_str(&mut out, err.as_str());
                text::push_str(&mut out, "\n");
            },
            None => {},
        }
        text::push_str(&mut out, "\n");
        proof {
            reveal_strlit("#");
            reveal_strlit(" ");
            reveal_strlit("\n");
            reveal_strlit("error: ");
            assert(es.take(i + 1).drop_last() =~= es.take(i as int));
            assert(entry@.id == es[i as int].id);
            assert(out@ =~= before + report_entry(es[i as int]));
        }
        i = i + 1;
    }
    proof {
        assert(es.take(entries@.len() as int) =~= es);
    }
    out
}

} // verus!
