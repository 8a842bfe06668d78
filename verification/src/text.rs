//! Character-level string helpers with their mathematical models.

use vstd::prelude::*;

verus! {

// ---------------------------------------------------------------------------
// Character classes
// ---------------------------------------------------------------------------

/// ASCII lower-casing of one character, as `char::to_ascii_lowercase` does.
pub open spec fn lower_char(c: char) -> char {
    if 'A' <= c && c <= 'Z' { ((c as u32) + 32) as char } else { c }
}

/// ASCII upper-casing of one character, as `char::to_ascii_uppercase` does.
pub open spec fn upper_char(c: char) -> char {
    if 'a' <= c && c <= 'z' { ((c as u32) - 32) as char } else { c }
}

/// ASCII lower-casing of a character sequence.
pub open spec fn lower(s: Seq<char>) -> Seq<char> {
    s.map_values(|c: char| lower_char(c))
}

/// ASCII upper-casing of a character sequence.
pub open spec fn upper(s: Seq<char>) -> Seq<char> {
    s.map_values(|c: char| upper_char(c))
}

/// ASCII case-insensitive equality, as `str::eq_ignore_ascii_case` does.
pub open spec fn eq_ignore_case(a: Seq<char>, b: Seq<char>) -> bool {
    lower(a) == lower(b)
}

/// The Unicode `White_Space` property, which `char::is_whitespace` tests.
pub open spec fn is_ws(c: char) -> bool {
    let u = c as u32;
    (0x09 <= u && u <= 0x0D) || u == 0x20 || u == 0x85 || u == 0xA0 || u == 0x1680
        || (0x2000 <= u && u <= 0x200A) || u == 0x2028 || u == 0x2029 || u == 0x202F
        || u == 0x205F || u == 0x3000
}

/// The `Cc` general category, which `char::is_control` tests.
pub open spec fn is_control(c: char) -> bool {
    let u = c as u32;
    u <= 0x1F || (0x7F <= u && u <= 0x9F)
}

/// ASCII letters and digits.
pub open spec fn is_ascii_alnum(c: char) -> bool {
    ('a' <= c && c <= 'z') || ('A' <= c && c <= 'Z') || ('0' <= c && c <= '9')
}

/// Whether a character is Unicode white space, as `char::is_whitespace` says.
pub fn char_is_ws(c: char) -> (b: bool)
    ensures
        b == is_ws(c),
{
    let u = c as u32;
    (0x09 <= u && u <= 0x0D) || u == 0x20 || u == 0x85 || u == 0xA0 || u == 0x1680 || (0x2000
        <= u && u <= 0x200A) || u == 0x2028 || u == 0x2029 || u == 0x202F || u == 0x205F || u
        == 0x3000
}

/// Whether a character is a control character, as `char::is_control` says.
pub fn char_is_control(c: char) -> (b: bool)
    ensures
        b == is_control(c),
{
    let u = c as u32;
    u <= 0x1F || (0x7F <= u && u <= 0x9F)
}

/// The ASCII lower-case of a character; other characters stay.
pub fn char_lower(c: char) -> (r: char)
    ensures
        r == lower_char(c),
{
    if 'A' <= c && c <= 'Z' {
        let u = (c as u32) + 32;
        proof {
            assert(0x61 <= u && u <= 0x7A);
        }
        char_from_ascii(u)
    } else {
        c
    }
}

/// The ASCII upper-case of a character; other characters stay.
pub fn char_upper(c: char) -> (r: char)
    ensures
        r == upper_char(c),
{
    if 'a' <= c && c <= 'z' {
        let u = (c as u32) - 32;
        char_from_ascii(u)
    } else {
        c
    }
}

/// The character with an ASCII code point.
fn char_from_ascii(u: u32) -> (c: char)
    requires
        u < 0x80,
    ensures
        c == u as char,
        c as u32 == u,
{
    let b = u as u8;
    b as char
}

// ---------------------------------------------------------------------------
// Sequence models
// ---------------------------------------------------------------------------

/// Whether `s` begins with `p`.
pub open spec fn starts_with(s: Seq<char>, p: Seq<char>) -> bool {
    p.len() <= s.len() && s.take(p.len() as int) == p
}

/// Whether `s` ends with `p`.
pub open spec fn ends_with(s: Seq<char>, p: Seq<char>) -> bool {
    p.len() <= s.len() && s.skip(s.len() - p.len()) == p
}

/// `p` occurs in `s` starting at `i`.
pub open spec fn occurs_at(s: Seq<char>, p: Seq<char>, i: int) -> bool {
    0 <= i && i + p.len() <= s.len() && s.subrange(i, i + p.len()) == p
}

/// Whether `p` occurs in `s`.
pub open spec fn contains(s: Seq<char>, p: Seq<char>) -> bool {
    exists|i: int| occurs_at(s, p, i)
}

/// Index of the first occurrence of `c`.
pub open spec fn find(s: Seq<char>, c: char) -> Option<nat>
    decreases s.len(),
{
    if s.len() == 0 {
        None
    } else if s[0] == c {
        Some(0)
    } else {
        match find(s.drop_first(), c) {
            Some(k) => Some(k + 1),
            None => None,
        }
    }
}

/// Index of the last occurrence of `c`.
pub open spec fn rfind(s: Seq<char>, c: char) -> Option<nat>
    decreases s.len(),
{
    if s.len() == 0 {
        None
    } else if s.last() == c {
        Some((s.len() - 1) as nat)
    } else {
        rfind(s.drop_last(), c)
    }
}

/// `str::split_once` on a character.
pub open spec fn split_once(s: Seq<char>, c: char) -> Option<(Seq<char>, Seq<char>)> {
    match find(s, c) {
        Some(i) => Some((s.take(i as int), s.skip(i as int + 1))),
        None => None,
    }
}

/// `str::rsplit_once` on a character.
pub open spec fn rsplit_once(s: Seq<char>, c: char) -> Option<(Seq<char>, Seq<char>)> {
    match rfind(s, c) {
        Some(i) => Some((s.take(i as int), s.skip(i as int + 1))),
        None => None,
    }
}

/// `str::split` on a character: the pieces between occurrences, in order.
pub open spec fn split(s: Seq<char>, c: char) -> Seq<Seq<char>>
    decreases s.len(),
{
    match find(s, c) {
        Some(i) => {
            if i < s.len() {
                seq![s.take(i as int)] + split(s.skip(i as int + 1), c)
            } else {
                seq![s]
            }
        },
        None => seq![s],
    }
}

/// Strips leading characters that satisfy `is_ws`.
pub open spec fn trim_start(s: Seq<char>) -> Seq<char>
    decreases s.len(),
{
    if s.len() > 0 && is_ws(s[0]) {
        trim_start(s.drop_first())
    } else {
        s
    }
}

/// Strips trailing characters that satisfy `is_ws`.
pub open spec fn trim_end(s: Seq<char>) -> Seq<char>
    decreases s.len(),
{
    if s.len() > 0 && is_ws(s.last()) {
        trim_end(s.drop_last())
    } else {
        s
    }
}

/// `str::trim`.
pub open spec fn trim(s: Seq<char>) -> Seq<char> {
    trim_end(trim_start(s))
}

/// Strips leading copies of `c`.
pub open spec fn trim_start_char(s: Seq<char>, c: char) -> Seq<char>
    decreases s.len(),
{
    if s.len() > 0 && s[0] == c {
        trim_start_char(s.drop_first(), c)
    } else {
        s
    }
}

/// Strips trailing copies of `c`.
pub open spec fn trim_end_char(s: Seq<char>, c: char) -> Seq<char>
    decreases s.len(),
{
    if s.len() > 0 && s.last() == c {
        trim_end_char(s.drop_last(), c)
    } else {
        s
    }
}

/// `str::trim_matches` with a character.
pub open spec fn trim_char(s: Seq<char>, c: char) -> Seq<char> {
    trim_end_char(trim_start_char(s, c), c)
}

/// Index of the first whitespace character, or the length.
pub open spec fn first_ws(s: Seq<char>) -> nat
    decreases s.len(),
{
    if s.len() == 0 {
        0
    } else if is_ws(s[0]) {
        0
    } else {
        1 + first_ws(s.drop_first())
    }
}

proof fn lemma_trim_start_shape(s: Seq<char>)
    ensures
        trim_start(s).len() <= s.len(),
        trim_start(s).len() > 0 ==> !is_ws(trim_start(s)[0]),
    decreases s.len(),
{
    if s.len() > 0 && is_ws(s[0]) {
        lemma_trim_start_shape(s.drop_first());
    }
}

proof fn lemma_trim_start_concat(x: Seq<char>, y: Seq<char>)
    ensures
        trim_start(x + y) == (if trim_start(x).len() == 0 { trim_start(y) } else { trim_start(x) + y }),
    decreases x.len(),
{
    if x.len() == 0 {
        assert(x + y =~= y);
    } else if is_ws(x[0]) {
        assert((x + y)[0] == x[0]);
        assert((x + y).drop_first() =~= x.drop_first() + y);
        lemma_trim_start_concat(x.drop_first(), y);
    } else {
        assert((x + y)[0] == x[0]);
    }
}

proof fn lemma_first_ws_concat(x: Seq<char>, y: Seq<char>)
    ensures
        first_ws(x) <= x.len(),
        first_ws(x + y) == (if first_ws(x) < x.len() { first_ws(x) } else { x.len() + first_ws(y) }),
    decreases x.len(),
{
    if x.len() == 0 {
        assert(x + y =~= y);
    } else {
        assert((x + y)[0] == x[0]);
        if !is_ws(x[0]) {
            assert((x + y).drop_first() =~= x.drop_first() + y);
            lemma_first_ws_concat(x.drop_first(), y);
        }
    }
}

/// A text with no white space is one word.
pub proof fn lemma_single_word(t: Seq<char>)
    requires
        t.len() > 0,
        forall|j: int| 0 <= j < t.len() ==> !is_ws(#[trigger] t[j]),
    ensures
        words(t) == seq![t],
{
    lemma_first_ws(t, t.len() as int);
    assert(trim_start(t) == t);
    assert(t.take(t.len() as int) =~= t);
    assert(t.skip(t.len() as int) =~= Seq::<char>::empty());
    assert(trim_start(Seq::<char>::empty()) =~= Seq::<char>::empty());
    assert(words(Seq::<char>::empty()) =~= Seq::<Seq<char>>::empty());
    assert(seq![t] + Seq::<Seq<char>>::empty() =~= seq![t]);
}

/// The words of two texts joined by a space are the words of the first, then those
/// of the second.
pub proof fn lemma_words_of_joined(x: Seq<char>, y: Seq<char>)
    ensures
        words(x + " "@ + y) == words(x) + words(y),
    decreases x.len(),
{
    reveal_strlit(" ");
    let sp = " "@;
    let u = x + sp + y;
    assert(u =~= x + (sp + y));
    lemma_trim_start_concat(x, sp + y);
    lemma_trim_start_shape(x);
    lemma_trim_start_shape(y);
    lemma_trim_start_shape(u);
    let tx = trim_start(x);
    if tx.len() == 0 {
        assert(is_ws((sp + y)[0]));
        assert((sp + y).drop_first() =~= y);
        assert(trim_start(u) == trim_start(y));
        assert(words(x) =~= Seq::<Seq<char>>::empty());
        assert(words(u) == words(y));
        assert(words(x) + words(y) =~= words(y));
    } else {
        let t = trim_start(u);
        assert(t == tx + (sp + y));
        lemma_first_ws_concat(tx, sp + y);
        assert(is_ws((sp + y)[0]));
        let n = first_ws(tx);
        assert(first_ws(t) == n);
        assert(n > 0) by {
            assert(tx[0] == tx[0]);
        }
        assert(t.take(n as int) =~= tx.take(n as int));
        assert(t.skip(n as int) =~= tx.skip(n as int) + sp + y);
        lemma_words_of_joined(tx.skip(n as int), y);
        assert(words(u) == seq![tx.take(n as int)] + words(tx.skip(n as int) + sp + y));
        assert(words(x) == seq![tx.take(n as int)] + words(tx.skip(n as int)));
        assert(words(u) =~= words(x) + words(y));
    }
}

/// `str::split_whitespace`: the maximal runs of non-whitespace characters.
pub open spec fn words(s: Seq<char>) -> Seq<Seq<char>>
    decreases s.len(),
{
    let t = trim_start(s);
    if t.len() == 0 {
        seq![]
    } else {
        let n = first_ws(t);
        if 0 < n && n <= t.len() && t.len() <= s.len() {
            seq![t.take(n as int)] + words(t.skip(n as int))
        } else {
            seq![]
        }
    }
}

/// Replaces every `from` with `to`.
pub open spec fn replace_char(s: Seq<char>, from: char, to: char) -> Seq<char> {
    s.map_values(|c: char| if c == from { to } else { c })
}

// ---------------------------------------------------------------------------
// Decimal and hexadecimal numerals
// ---------------------------------------------------------------------------

/// The decimal digit of a number below ten.
pub open spec fn digit_char(d: nat) -> char {
    (d + 48) as char
}

/// The decimal numeral of `n`, as `u64::to_string` writes it.
pub open spec fn decimal(n: nat) -> Seq<char>
    decreases n,
{
    if n < 10 {
        seq![digit_char(n)]
    } else {
        decimal(n / 10).push(digit_char(n % 10))
    }
}

/// Upper-case hexadecimal digit.
pub open spec fn hex_upper_char(d: nat) -> char {
    if d < 10 { (d + 48) as char } else { (d + 55) as char }
}

/// Lower-case hexadecimal digit.
pub open spec fn hex_lower_char(d: nat) -> char {
    if d < 10 { (d + 48) as char } else { (d + 87) as char }
}

/// The lower-case hexadecimal numeral of `n`, as `{:x}` writes it.
pub open spec fn hex_lower(n: nat) -> Seq<char>
    decreases n,
{
    if n < 16 {
        seq![hex_lower_char(n)]
    } else {
        hex_lower(n / 16).push(hex_lower_char(n % 16))
    }
}


/// The texts of strings.
pub open spec fn views(v: Seq<String>) -> Seq<Seq<char>> {
    v.map_values(|x: String| x@)
}

// ---------------------------------------------------------------------------
// Lemmas
// ---------------------------------------------------------------------------

/// What `find` gives when the character is found at `i`.
pub proof fn lemma_find_at(s: Seq<char>, c: char, i: int)
    requires
        0 <= i < s.len(),
        s[i] == c,
        forall|j: int| 0 <= j < i ==> s[j] != c,
    ensures
        find(s, c) == Some(i as nat),
    decreases i,
{
    if i > 0 {
        assert forall|j: int| 0 <= j < i - 1 implies s.drop_first()[j] != c by {
            assert(s.drop_first()[j] == s[j + 1]);
        }
        lemma_find_at(s.drop_first(), c, i - 1);
    }
}

/// What `find` gives when the character does not occur.
pub proof fn lemma_find_none(s: Seq<char>, c: char)
    requires
        forall|j: int| 0 <= j < s.len() ==> s[j] != c,
    ensures
        find(s, c) is None,
    decreases s.len(),
{
    if s.len() > 0 {
        assert forall|j: int| 0 <= j < s.len() - 1 implies s.drop_first()[j] != c by {
            assert(s.drop_first()[j] == s[j + 1]);
        }
        lemma_find_none(s.drop_first(), c);
    }
}

/// What `find` gives: the first place of the character, or none when it does not
/// occur.
pub proof fn lemma_find_bounds(s: Seq<char>, c: char)
    ensures
        find(s, c) matches Some(i) ==> i < s.len() && s[i as int] == c && forall|j: int|
            0 <= j < i ==> s[j] != c,
        find(s, c) is None ==> forall|j: int| 0 <= j < s.len() ==> s[j] != c,
    decreases s.len(),
{
    if s.len() > 0 {
        lemma_find_bounds(s.drop_first(), c);
        if s[0] != c {
            assert forall|j: int| 0 <= j < s.len() && find(s, c) is None implies s[j] != c by {
                if j > 0 {
                    assert(s.drop_first()[j - 1] == s[j]);
                }
            }
            if let Some(i) = find(s, c) {
                assert forall|j: int| 0 <= j < i implies s[j] != c by {
                    if j > 0 {
                        assert(s.drop_first()[j - 1] == s[j]);
                    }
                }
            }
        }
    }
}

/// What `rfind` gives when the character is last found at `i`.
pub proof fn lemma_rfind_at(s: Seq<char>, c: char, i: int)
    requires
        0 <= i < s.len(),
        s[i] == c,
        forall|j: int| i < j < s.len() ==> s[j] != c,
    ensures
        rfind(s, c) == Some(i as nat),
    decreases s.len(),
{
    if i < s.len() - 1 {
        lemma_rfind_at(s.drop_last(), c, i);
    }
}

/// What `rfind` gives when the character does not occur.
pub proof fn lemma_rfind_none(s: Seq<char>, c: char)
    requires
        forall|j: int| 0 <= j < s.len() ==> s[j] != c,
    ensures
        rfind(s, c) is None,
    decreases s.len(),
{
    if s.len() > 0 {
        lemma_rfind_none(s.drop_last(), c);
    }
}

/// Trimming the start skips the leading white space.
pub proof fn lemma_trim_start(s: Seq<char>, k: int)
    requires
        0 <= k <= s.len(),
        forall|j: int| 0 <= j < k ==> is_ws(s[j]),
        k == s.len() || !is_ws(s[k]),
    ensures
        trim_start(s) == s.skip(k),
    decreases k,
{
    if k > 0 {
        assert forall|j: int| 0 <= j < k - 1 implies is_ws(s.drop_first()[j]) by {
            assert(s.drop_first()[j] == s[j + 1]);
        }
        lemma_trim_start(s.drop_first(), k - 1);
        assert(s.drop_first().skip(k - 1) =~= s.skip(k));
    } else {
        assert(s.skip(0) =~= s);
    }
}

/// Trimming the end drops the trailing white space.
pub proof fn lemma_trim_end(s: Seq<char>, k: int)
    requires
        0 <= k <= s.len(),
        forall|j: int| k <= j < s.len() ==> is_ws(s[j]),
        k == 0 || !is_ws(s[k - 1]),
    ensures
        trim_end(s) == s.take(k),
    decreases s.len() - k,
{
    if k < s.len() {
        lemma_trim_end(s.drop_last(), k);
        assert(s.drop_last().take(k) =~= s.take(k));
    } else {
        assert(s.take(k) =~= s);
    }
}

/// Trimming a character from the start skips its leading copies.
pub proof fn lemma_trim_start_char(s: Seq<char>, c: char, k: int)
    requires
        0 <= k <= s.len(),
        forall|j: int| 0 <= j < k ==> s[j] == c,
        k == s.len() || s[k] != c,
    ensures
        trim_start_char(s, c) == s.skip(k),
    decreases k,
{
    if k > 0 {
        assert forall|j: int| 0 <= j < k - 1 implies s.drop_first()[j] == c by {
            assert(s.drop_first()[j] == s[j + 1]);
        }
        lemma_trim_start_char(s.drop_first(), c, k - 1);
        assert(s.drop_first().skip(k - 1) =~= s.skip(k));
    } else {
        assert(s.skip(0) =~= s);
    }
}

/// Trimming a character from the end drops its trailing copies.
pub proof fn lemma_trim_end_char(s: Seq<char>, c: char, k: int)
    requires
        0 <= k <= s.len(),
        forall|j: int| k <= j < s.len() ==> s[j] == c,
        k == 0 || s[k - 1] != c,
    ensures
        trim_end_char(s, c) == s.take(k),
    decreases s.len() - k,
{
    if k < s.len() {
        lemma_trim_end_char(s.drop_last(), c, k);
        assert(s.drop_last().take(k) =~= s.take(k));
    } else {
        assert(s.take(k) =~= s);
    }
}

/// Where the first white space of a text is.
pub proof fn lemma_first_ws(s: Seq<char>, k: int)
    requires
        0 <= k <= s.len(),
        forall|j: int| 0 <= j < k ==> !is_ws(s[j]),
        k == s.len() || is_ws(s[k]),
    ensures
        first_ws(s) == k,
    decreases k,
{
    if k > 0 {
        assert forall|j: int| 0 <= j < k - 1 implies !is_ws(s.drop_first()[j]) by {
            assert(s.drop_first()[j] == s[j + 1]);
        }
        lemma_first_ws(s.drop_first(), k - 1);
    }
}

// ---------------------------------------------------------------------------
// Executable helpers
// ---------------------------------------------------------------------------

/// Appends one character, as `String::push` does.
#[verifier::external_body]
pub(crate) fn push_char(s: &mut String, c: char)
    ensures
        final(s)@ == old(s)@.push(c),
{
    s.push(c);
}

/// `String::pop`: drops the last character, if any.
pub fn pop_char(s: &mut String)
    ensures
        final(s)@ == if old(s)@.len() > 0 { old(s)@.drop_last() } else { old(s)@ },
{
    let v = chars_of(s.as_str());
    if v.len() > 0 {
        let r = string_of(&v, 0, v.len() - 1);
        *s = r;
    }
}

/// The characters of a string slice, in order.
pub fn chars_of(s: &str) -> (v: Vec<char>)
    ensures
        v@ == s@,
{
    let mut v: Vec<char> = Vec::new();
    for c in it: s.chars()
        invariant
            v@ == it.seq().take(it.index() as int),
            it.seq() == s@,
    {
        v.push(c);
    }
    v
}

/// The characters `v[lo..hi]` as a string.
pub fn string_of(v: &Vec<char>, lo: usize, hi: usize) -> (r: String)
    requires
        lo <= hi <= v.len(),
    ensures
        r@ == v@.subrange(lo as int, hi as int),
{
    let mut r = String::new();
    let mut i = lo;
    while i < hi
        invariant
            lo <= i <= hi <= v.len(),
            r@ == v@.subrange(lo as int, i as int),
        decreases hi - i,
    {
        push_char(&mut r, v[i]);
        i = i + 1;
        assert(r@ =~= v@.subrange(lo as int, i as int));
    }
    r
}

/// All characters of `v` as a string.
pub fn string_of_all(v: &Vec<char>) -> (r: String)
    ensures
        r@ == v@,
{
    let r = string_of(v, 0, v.len());
    assert(v@.subrange(0, v@.len() as int) =~= v@);
    r
}

/// Appends a string slice.
pub fn push_str(s: &mut String, t: &str)
    ensures
        final(s)@ == old(s)@ + t@,
{
    s.append(t);
}

/// Copies a string slice into a new string.
pub fn to_owned(s: &str) -> (r: String)
    ensures
        r@ == s@,
{
    String::from_str(s)
}

/// Character equality of two string slices.
pub fn str_eq(a: &str, b: &str) -> (r: bool)
    ensures
        r == (a@ == b@),
{
    let x = chars_of(a);
    let y = chars_of(b);
    if x.len() != y.len() {
        return false;
    }
    let mut i: usize = 0;
    while i < x.len()
        invariant
            x@ == a@,
            y@ == b@,
            x.len() == y.len(),
            0 <= i <= x.len(),
            forall|j: int| 0 <= j < i ==> x@[j] == y@[j],
        decreases x.len() - i,
    {
        if x[i] != y[i] {
            return false;
        }
        i = i + 1;
    }
    assert(x@ =~= y@);
    true
}

/// ASCII lower-casing, as `str::to_ascii_lowercase` does.
pub fn to_lower(s: &str) -> (r: String)
    ensures
        r@ == lower(s@),
{
    let mut r = String::new();
    for c in it: s.chars()
        invariant
            it.seq() == s@,
            r@ == lower(s@.take(it.index() as int)),
    {
        let ghost k = it.index();
        push_char(&mut r, char_lower(c));
        assert(lower(s@.take(k + 1)) =~= lower(s@.take(k as int)).push(lower_char(s@[k as int])));
    }
    assert(s@.take(s@.len() as int) =~= s@);
    r
}

/// ASCII upper-casing, as `str::to_ascii_uppercase` does.
pub fn to_upper(s: &str) -> (r: String)
    ensures
        r@ == upper(s@),
{
    let mut r = String::new();
    for c in it: s.chars()
        invariant
            it.seq() == s@,
            r@ == upper(s@.take(it.index() as int)),
    {
        let ghost k = it.index();
        push_char(&mut r, char_upper(c));
        assert(upper(s@.take(k + 1)) =~= upper(s@.take(k as int)).push(upper_char(s@[k as int])));
    }
    assert(s@.take(s@.len() as int) =~= s@);
    r
}

/// ASCII case-insensitive equality, as `str::eq_ignore_ascii_case` does.
pub fn eq_ignore_case_str(a: &str, b: &str) -> (r: bool)
    ensures
        r == eq_ignore_case(a@, b@),
{
    let x = chars_of(a);
    let y = chars_of(b);
    if x.len() != y.len() {
        proof {
            if eq_ignore_case(a@, b@) {
                assert(lower(a@).len() == lower(b@).len());
            }
        }
        return false;
    }
    let mut i: usize = 0;
    while i < x.len()
        invariant
            x@ == a@,
            y@ == b@,
            x.len() == y.len(),
            0 <= i <= x.len(),
            forall|j: int| 0 <= j < i ==> lower_char(x@[j]) == lower_char(y@[j]),
        decreases x.len() - i,
    {
        if char_lower(x[i]) != char_lower(y[i]) {
            proof {
                assert(lower(a@)[i as int] != lower(b@)[i as int]);
            }
            return false;
        }
        i = i + 1;
    }
    assert(lower(a@) =~= lower(b@));
    true
}

/// Whether `v[at..]` begins with `p`.
pub fn seq_has_prefix_at(v: &Vec<char>, at: usize, p: &Vec<char>) -> (r: bool)
    requires
        at <= v.len(),
    ensures
        r == starts_with(v@.skip(at as int), p@),
{
    if p.len() > v.len() - at {
        return false;
    }
    let mut i: usize = 0;
    while i < p.len()
        invariant
            at + p.len() <= v.len(),
            0 <= i <= p.len(),
            forall|j: int| 0 <= j < i ==> v@[at + j] == p@[j],
        decreases p.len() - i,
    {
        if v[at + i] != p[i] {
            proof {
                assert(v@.skip(at as int).take(p.len() as int)[i as int] != p@[i as int]);
            }
            return false;
        }
        i = i + 1;
    }
    assert(v@.skip(at as int).take(p.len() as int) =~= p@);
    true
}

/// `str::starts_with` with a string pattern.
pub fn has_prefix(s: &str, p: &str) -> (r: bool)
    ensures
        r == starts_with(s@, p@),
{
    let v = chars_of(s);
    let q = chars_of(p);
    assert(v@.skip(0) =~= v@);
    seq_has_prefix_at(&v, 0, &q)
}

/// `str::ends_with` with a string pattern.
pub fn has_suffix(s: &str, p: &str) -> (r: bool)
    ensures
        r == ends_with(s@, p@),
{
    let v = chars_of(s);
    let q = chars_of(p);
    if q.len() > v.len() {
        return false;
    }
    let at = v.len() - q.len();
    let r = seq_has_prefix_at(&v, at, &q);
    assert(v@.skip(at as int).take(q.len() as int) =~= v@.skip(at as int));
    r
}

/// `str::contains` with a string pattern.
pub fn contains_str(s: &str, p: &str) -> (r: bool)
    ensures
        r == contains(s@, p@),
{
    let v = chars_of(s);
    let q = chars_of(p);
    if q.len() > v.len() {
        proof {
            assert forall|i: int| !occurs_at(s@, p@, i) by {}
        }
        return false;
    }
    let limit = v.len() - q.len();
    let mut i: usize = 0;
    loop
        invariant
            v@ == s@,
            q@ == p@,
            q.len() <= v.len(),
            limit == v.len() - q.len(),
            0 <= i <= limit,
            forall|j: int| 0 <= j < i ==> !occurs_at(s@, p@, j),
        decreases limit - i,
    {
        proof {
            assert(v@.skip(i as int).take(q.len() as int) =~= v@.subrange(i as int, i + q.len()));
        }
        if seq_has_prefix_at(&v, i, &q) {
            assert(occurs_at(s@, p@, i as int));
            return true;
        }
        if i == limit {
            proof {
                assert forall|j: int| !occurs_at(s@, p@, j) by {
                    if 0 <= j && j < i {
                    }
                }
            }
            return false;
        }
        i = i + 1;
    }
}

/// Index of the first `c` in `v[from..]`, counted from the start of `v`.
pub fn find_from(v: &Vec<char>, from: usize, c: char) -> (r: Option<usize>)
    requires
        from <= v.len(),
    ensures
        match r {
            Some(i) => from <= i < v.len() && v@[i as int] == c && forall|j: int|
                from <= j < i ==> v@[j] != c,
            None => forall|j: int| from <= j < v.len() ==> v@[j] != c,
        },
{
    let mut i = from;
    while i < v.len()
        invariant
            from <= i <= v.len(),
            forall|j: int| from <= j < i ==> v@[j] != c,
        decreases v.len() - i,
    {
        if v[i] == c {
            return Some(i);
        }
        i = i + 1;
    }
    None
}

/// `str::split_once` on a character.
pub fn split_once_char(s: &str, c: char) -> (r: Option<(String, String)>)
    ensures
        match split_once(s@, c) {
            Some((a, b)) => r matches Some((x, y)) && x@ == a && y@ == b,
            None => r is None,
        },
{
    let v = chars_of(s);
    match find_from(&v, 0, c) {
        Some(i) => {
            proof {
                lemma_find_at(s@, c, i as int);
            }
            let a = string_of(&v, 0, i);
            let b = string_of(&v, i + 1, v.len());
            assert(v@.subrange(0, i as int) =~= s@.take(i as int));
            assert(v@.subrange(i + 1, v.len() as int) =~= s@.skip(i + 1));
            Some((a, b))
        },
        None => {
            proof {
                lemma_find_none(s@, c);
            }
            None
        },
    }
}

/// `str::rsplit_once` on a character.
pub fn rsplit_once_char(s: &str, c: char) -> (r: Option<(String, String)>)
    ensures
        match rsplit_once(s@, c) {
            Some((a, b)) => r matches Some((x, y)) && x@ == a && y@ == b,
            None => r is None,
        },
{
    let v = chars_of(s);
    let mut i = v.len();
    while i > 0
        invariant
            v@ == s@,
            0 <= i <= v.len(),
            forall|j: int| i <= j < v.len() ==> v@[j] != c,
        decreases i,
    {
        if v[i - 1] == c {
            proof {
                lemma_rfind_at(s@, c, i - 1);
            }
            let a = string_of(&v, 0, i - 1);
            let b = string_of(&v, i, v.len());
            assert(v@.subrange(0, i - 1) =~= s@.take(i - 1));
            assert(v@.subrange(i as int, v.len() as int) =~= s@.skip(i as int));
            return Some((a, b));
        }
        i = i - 1;
    }
    proof {
        lemma_rfind_none(s@, c);
    }
    None
}

/// `str::trim`.
pub fn trim_str(s: &str) -> (r: String)
    ensures
        r@ == trim(s@),
{
    let v = chars_of(s);
    let mut a: usize = 0;
    while a < v.len() && char_is_ws(v[a])
        invariant
            v@ == s@,
            0 <= a <= v.len(),
            forall|j: int| 0 <= j < a ==> is_ws(v@[j]),
        decreases v.len() - a,
    {
        a = a + 1;
    }
    proof {
        lemma_trim_start(s@, a as int);
    }
    let mut b = v.len();
    while b > a && char_is_ws(v[b - 1])
        invariant
            v@ == s@,
            a <= b <= v.len(),
            forall|j: int| b <= j < v.len() ==> is_ws(v@[j]),
        decreases b,
    {
        b = b - 1;
    }
    proof {
        let t = s@.skip(a as int);
        assert forall|j: int| (b - a) <= j < t.len() implies is_ws(t[j]) by {
            assert(t[j] == v@[a + j]);
        }
        lemma_trim_end(t, b - a);
        assert(t.take(b - a) =~= v@.subrange(a as int, b as int));
    }
    string_of(&v, a, b)
}

/// `str::trim_matches` with a character.
pub fn trim_char_str(s: &str, c: char) -> (r: String)
    ensures
        r@ == trim_char(s@, c),
{
    let v = chars_of(s);
    let mut a: usize = 0;
    while a < v.len() && v[a] == c
        invariant
            v@ == s@,
            0 <= a <= v.len(),
            forall|j: int| 0 <= j < a ==> v@[j] == c,
        decreases v.len() - a,
    {
        a = a + 1;
    }
    proof {
        lemma_trim_start_char(s@, c, a as int);
    }
    let mut b = v.len();
    while b > a && v[b - 1] == c
        invariant
            v@ == s@,
            a <= b <= v.len(),
            forall|j: int| b <= j < v.len() ==> v@[j] == c,
        decreases b,
    {
        b = b - 1;
    }
    proof {
        let t = s@.skip(a as int);
        assert forall|j: int| (b - a) <= j < t.len() implies t[j] == c by {
            assert(t[j] == v@[a + j]);
        }
        lemma_trim_end_char(t, c, b - a);
        assert(t.take(b - a) =~= v@.subrange(a as int, b as int));
    }
    string_of(&v, a, b)
}

/// `str::trim_start_matches` with a character.
pub fn trim_start_char_str(s: &str, c: char) -> (r: String)
    ensures
        r@ == trim_start_char(s@, c),
{
    let v = chars_of(s);
    let mut a: usize = 0;
    while a < v.len() && v[a] == c
        invariant
            v@ == s@,
            0 <= a <= v.len(),
            forall|j: int| 0 <= j < a ==> v@[j] == c,
        decreases v.len() - a,
    {
        a = a + 1;
    }
    proof {
        lemma_trim_start_char(s@, c, a as int);
        assert(s@.skip(a as int) =~= v@.subrange(a as int, v.len() as int));
    }
    string_of(&v, a, v.len())
}

/// `str::split_whitespace`, collected.
pub fn split_ws(s: &str) -> (r: Vec<String>)
    ensures
        views(r@) == words(s@),
{
    let v = chars_of(s);
    let mut r: Vec<String> = Vec::new();
    let mut i: usize = 0;
    assert(v@.skip(0) =~= v@);
    assert(views(r@) + words(v@) =~= words(s@));
    while i < v.len()
        invariant
            v@ == s@,
            0 <= i <= v.len(),
            views(r@) + words(v@.skip(i as int)) == words(s@),
        decreases v.len() - i,
    {
        let ghost t0 = v@.skip(i as int);
        let mut j = i;
        while j < v.len() && char_is_ws(v[j])
            invariant
                i <= j <= v.len(),
                forall|k: int| i <= k < j ==> is_ws(v@[k]),
            decreases v.len() - j,
        {
            j = j + 1;
        }
        proof {
            assert forall|k: int| 0 <= k < j - i implies is_ws(t0[k]) by {
                assert(t0[k] == v@[i + k]);
            }
            lemma_trim_start(t0, j - i);
            assert(t0.skip(j - i) =~= v@.skip(j as int));
        }
        if j == v.len() {
            proof {
                assert(v@.skip(j as int).len() == 0);
                assert(words(t0) =~= Seq::<Seq<char>>::empty());
                assert(words(v@.skip(j as int)) =~= Seq::<Seq<char>>::empty());
            }
            i = j;
            continue;
        }
        let mut e = j;
        while e < v.len() && !char_is_ws(v[e])
            invariant
                j <= e <= v.len(),
                forall|k: int| j <= k < e ==> !is_ws(v@[k]),
            decreases v.len() - e,
        {
            e = e + 1;
        }
        let ghost t = v@.skip(j as int);
        proof {
            assert forall|k: int| 0 <= k < e - j implies !is_ws(t[k]) by {
                assert(t[k] == v@[j + k]);
            }
            if e < v.len() {
                assert(t[e - j] == v@[e as int]);
            }
            lemma_first_ws(t, e - j);
            assert(t.take(e - j) =~= v@.subrange(j as int, e as int));
            assert(t.skip(e - j) =~= v@.skip(e as int));
            assert(words(t0) == seq![t.take(e - j)] + words(t.skip(e - j)));
        }
        let word = string_of(&v, j, e);
        let ghost old_r = r@;
        r.push(word);
        proof {
            assert(views(r@) =~= views(old_r).push(v@.subrange(j as int, e as int)));
            assert(views(r@) + words(v@.skip(e as int)) =~= views(old_r) + words(t0));
        }
        i = e;
    }
    proof {
        if i == v.len() {
            assert(v@.skip(i as int).len() == 0);
            assert(words(v@.skip(i as int)) =~= Seq::<Seq<char>>::empty());
        }
        assert(views(r@) =~= views(r@) + words(v@.skip(i as int)));
    }
    r
}

/// `str::split` on a character, collected.
pub fn split_char(s: &str, c: char) -> (r: Vec<String>)
    ensures
        views(r@) == split(s@, c),
{
    let v = chars_of(s);
    let mut r: Vec<String> = Vec::new();
    let mut i: usize = 0;
    assert(v@.skip(0) =~= v@);
    assert(views(r@) + split(v@, c) =~= split(s@, c));
    loop
        invariant
            v@ == s@,
            0 <= i <= v.len(),
            views(r@) + split(v@.skip(i as int), c) == split(s@, c),
        decreases v.len() - i,
    {
        let ghost t = v@.skip(i as int);
        match find_from(&v, i, c) {
            Some(k) => {
                proof {
                    assert forall|j: int| 0 <= j < k - i implies t[j] != c by {
                        assert(t[j] == v@[i + j]);
                    }
                    lemma_find_at(t, c, k - i);
                    assert(t.take(k - i) =~= v@.subrange(i as int, k as int));
                    assert(t.skip(k - i + 1) =~= v@.skip(k + 1));
                }
                let piece = string_of(&v, i, k);
                let ghost old_r = r@;
                r.push(piece);
                proof {
                    assert(views(r@) =~= views(old_r).push(v@.subrange(i as int, k as int)));
                    assert(views(r@) + split(v@.skip(k + 1), c) =~= views(old_r) + split(t, c));
                }
                i = k + 1;
            },
            None => {
                proof {
                    assert forall|j: int| 0 <= j < t.len() implies t[j] != c by {
                        assert(t[j] == v@[i + j]);
                    }
                    lemma_find_none(t, c);
                    assert(t =~= v@.subrange(i as int, v.len() as int));
                }
                let piece = string_of(&v, i, v.len());
                let ghost old_r = r@;
                r.push(piece);
                proof {
                    assert(views(r@) =~= views(old_r) + split(t, c));
                }
                return r;
            },
        }
    }
}

/// The parts joined with `sep` between them, as `join` on a slice of strings gives it.
pub open spec fn join(parts: Seq<Seq<char>>, sep: Seq<char>) -> Seq<char>
    decreases parts.len(),
{
    if parts.len() == 0 {
        Seq::empty()
    } else if parts.len() == 1 {
        parts[0]
    } else {
        join(parts.drop_last(), sep) + sep + parts.last()
    }
}

/// Joining one more part adds the separator and the part, unless it is the first.
pub proof fn lemma_join_push(parts: Seq<Seq<char>>, sep: Seq<char>, p: Seq<char>)
    ensures
        join(parts.push(p), sep) == if parts.len() == 0 {
            p
        } else {
            join(parts, sep) + sep + p
        },
{
    assert(parts.push(p).drop_last() =~= parts);
}

/// The strings joined with `sep` between them, as `join` on a slice of strings does.
pub fn join_strings(parts: &Vec<String>, sep: &str) -> (r: String)
    ensures
        r@ == join(views(parts@), sep@),
{
    let ghost ps = views(parts@);
    let mut out = String::new();
    let mut i: usize = 0;
    proof {
        assert(ps.take(0) =~= Seq::<Seq<char>>::empty());
    }
    while i < parts.len()
        invariant
            0 <= i <= parts@.len(),
            ps == views(parts@),
            out@ == join(ps.take(i as int), sep@),
        decreases parts.len() - i,
    {
        if i > 0 {
            push_str(&mut out, sep);
        }
        push_str(&mut out, parts[i].as_str());
        proof {
            assert(ps.take(i + 1) =~= ps.take(i as int).push(ps[i as int]));
            lemma_join_push(ps.take(i as int), sep@, ps[i as int]);
            if i == 0 {
                assert(ps.take(0) =~= Seq::<Seq<char>>::empty());
            }
        }
        i = i + 1;
    }
    proof {
        assert(ps.take(parts@.len() as int) =~= ps);
    }
    out
}

/// Appends the decimal numeral of `n`.
pub fn push_decimal(out: &mut String, n: u64)
    ensures
        final(out)@ == old(out)@ + decimal(n as nat),
    decreases n,
{
    if n >= 10 {
        push_decimal(out, n / 10);
    }
    let d = (n % 10) as u32 + 48;
    push_char(out, char_from_ascii(d));
    proof {
        if n >= 10 {
            assert(decimal(n as nat) == decimal((n / 10) as nat).push(digit_char((n % 10) as nat)));
        }
    }
    assert(final(out)@ =~= old(out)@ + decimal(n as nat));
}

/// The decimal numeral of `n`, as `u64::to_string` writes it.
pub fn decimal_string(n: u64) -> (r: String)
    ensures
        r@ == decimal(n as nat),
{
    let mut r = String::new();
    push_decimal(&mut r, n);
    assert(r@ =~= decimal(n as nat));
    r
}

/// Appends the lower-case hexadecimal numeral of `n`.
pub fn push_hex_lower(out: &mut String, n: u64)
    ensures
        final(out)@ == old(out)@ + hex_lower(n as nat),
    decreases n,
{
    if n >= 16 {
        push_hex_lower(out, n / 16);
    }
    let d = (n % 16) as u32;
    let code = if d < 10 { d + 48 } else { d + 87 };
    push_char(out, char_from_ascii(code));
    assert(final(out)@ =~= old(out)@ + hex_lower(n as nat));
}

/// Appends a byte as two upper-case hexadecimal digits, as `{:02X}` writes it.
pub fn push_hex_byte(out: &mut String, b: u8)
    ensures
        final(out)@ == old(out)@ + seq![
            hex_upper_char((b / 16) as nat),
            hex_upper_char((b % 16) as nat),
        ],
{
    let hi = (b / 16) as u32;
    let lo = (b % 16) as u32;
    push_char(out, char_from_ascii(if hi < 10 { hi + 48 } else { hi + 55 }));
    push_char(out, char_from_ascii(if lo < 10 { lo + 48 } else { lo + 55 }));
    assert(final(out)@ =~= old(out)@ + seq![
        hex_upper_char((b / 16) as nat),
        hex_upper_char((b % 16) as nat),
    ]);
}


// ---------------------------------------------------------------------------
// Unsigned integer parsing
// ---------------------------------------------------------------------------

/// An ASCII decimal digit.
pub open spec fn is_digit(c: char) -> bool {
    '0' <= c && c <= '9'
}

/// A text made of ASCII decimal digits only.
pub open spec fn all_digits(s: Seq<char>) -> bool {
    forall|i: int| 0 <= i < s.len() ==> is_digit(s[i])
}

/// The value of a string of decimal digits.
pub open spec fn digits_value(s: Seq<char>) -> nat
    decreases s.len(),
{
    if s.len() == 0 {
        0
    } else {
        digits_value(s.drop_last()) * 10 + ((s.last() as nat) - 48) as nat
    }
}

/// Unsigned `FromStr` as the standard library defines it: an optional `+`, then one or
/// more ASCII digits, whose value must not exceed `max`.
pub open spec fn parse_uint(s: Seq<char>, max: nat) -> Option<nat> {
    let d = if s.len() > 0 && s[0] == '+' { s.drop_first() } else { s };
    if d.len() > 0 && all_digits(d) && digits_value(d) <= max {
        Some(digits_value(d))
    } else {
        None
    }
}

/// A decimal numeral is a non-empty run of ASCII digits whose value is the number
/// it writes, so `parse_uint` reads back every number that `decimal` writes.
pub proof fn lemma_decimal_reads_back(n: nat)
    ensures
        decimal(n).len() > 0,
        all_digits(decimal(n)),
        digits_value(decimal(n)) == n,
        is_digit(decimal(n)[0]),
        is_digit(decimal(n).last()),
        forall|max: nat| n <= max ==> #[trigger] parse_uint(decimal(n), max) == Some(n),
    decreases n,
{
    if n < 10 {
        assert(((n + 48) as char) as nat == n + 48);
        assert(decimal(n).drop_last() =~= Seq::<char>::empty());
        assert(digits_value(decimal(n)) == digits_value(Seq::<char>::empty()) * 10 + (
        (decimal(n).last() as nat) - 48) as nat);
    } else {
        lemma_decimal_reads_back(n / 10);
        let d = decimal(n / 10);
        let c = digit_char(n % 10);
        assert(((n % 10 + 48) as char) as nat == n % 10 + 48);
        assert(d.push(c).drop_last() =~= d);
        assert((n / 10) * 10 + n % 10 == n);
        assert(decimal(n) == d.push(c));
        assert(digits_value(d.push(c)) == digits_value(d) * 10 + ((c as nat) - 48) as nat);
        assert forall|i: int| 0 <= i < d.push(c).len() implies is_digit(#[trigger] d.push(c)[i]) by {
            if i < d.len() {
                assert(d.push(c)[i] == d[i]);
            }
        }
    }
    assert(decimal(n)[0] != '+');
}

/// The value of a digit prefix grows with the prefix.
pub proof fn lemma_digits_value_monotone(s: Seq<char>, k: int)
    requires
        0 <= k <= s.len(),
        all_digits(s),
    ensures
        digits_value(s.take(k)) <= digits_value(s),
    decreases s.len() - k,
{
    if k < s.len() {
        lemma_digits_value_monotone(s, k + 1);
        assert(s.take(k + 1).drop_last() =~= s.take(k));
        assert(is_digit(s[k]));
    } else {
        assert(s.take(k) =~= s);
    }
}

/// Parses an unsigned decimal number no larger than `max`, as `u16`/`u64` `FromStr` do.
pub fn parse_uint_str(s: &str, max: u64) -> (r: Option<u64>)
    ensures
        match parse_uint(s@, max as nat) {
            Some(n) => r == Some(n as u64),
            None => r is None,
        },
{
    let v = chars_of(s);
    let start: usize = if v.len() > 0 && v[0] == '+' { 1 } else { 0 };
    let ghost d = if s@.len() > 0 && s@[0] == '+' { s@.drop_first() } else { s@ };
    assert(d =~= v@.skip(start as int));
    if start == v.len() {
        return None;
    }
    let mut acc: u64 = 0;
    let mut i = start;
    while i < v.len()
        invariant
            v@ == s@,
            d == v@.skip(start as int),
            d == (if s@.len() > 0 && s@[0] == '+' { s@.drop_first() } else { s@ }),
            start <= i <= v.len(),
            all_digits(d.take(i - start)),
            acc == digits_value(d.take(i - start)),
            acc <= max,
        decreases v.len() - i,
    {
        let c = v[i];
        if !('0' <= c && c <= '9') {
            proof {
                assert(d[i - start] == c);
                assert(!is_digit(d[i - start]));
                assert(!all_digits(d));
            }
            return None;
        }
        let digit = (c as u32 - 48) as u64;
        proof {
            assert(d.take(i - start + 1).drop_last() =~= d.take(i - start));
            assert(d.take(i - start + 1).last() == c);
            assert(all_digits(d.take(i - start + 1))) by {
                assert forall|j: int| 0 <= j < i - start + 1 implies is_digit(
                    #[trigger] d.take(i - start + 1)[j],
                ) by {
                    if j < i - start {
                        assert(d.take(i - start + 1)[j] == d.take(i - start)[j]);
                    }
                }
            }
        }
        let next: u128 = (acc as u128) * 10 + (digit as u128);
        if next > max as u128 {
            proof {
                assert(digits_value(d.take(i - start + 1)) == acc * 10 + digit);
                if all_digits(d) {
                    lemma_digits_value_monotone(d, i - start + 1);
                }
            }
            return None;
        }
        acc = next as u64;
        i = i + 1;
    }
    assert(d.take(i - start) =~= d);
    Some(acc)
}


// ---------------------------------------------------------------------------
// Lexicographic order (code point order, which is also UTF-8 byte order)
// ---------------------------------------------------------------------------

/// Lexicographic `<` on texts, character by character.
pub open spec fn seq_lt(a: Seq<char>, b: Seq<char>) -> bool
    decreases a.len(),
{
    if a.len() == 0 {
        b.len() > 0
    } else if b.len() == 0 {
        false
    } else if a[0] != b[0] {
        a[0] < b[0]
    } else {
        seq_lt(a.drop_first(), b.drop_first())
    }
}

/// Texts in strictly increasing order.
pub open spec fn strictly_sorted(v: Seq<Seq<char>>) -> bool {
    forall|i: int, j: int| 0 <= i < j < v.len() ==> seq_lt(#[trigger] v[i], #[trigger] v[j])
}

/// No text is below itself.
pub proof fn lemma_lt_irrefl(a: Seq<char>)
    ensures
        !seq_lt(a, a),
    decreases a.len(),
{
    if a.len() > 0 {
        lemma_lt_irrefl(a.drop_first());
    }
}

/// Of two texts, at most one is below the other.
pub proof fn lemma_lt_asym(a: Seq<char>, b: Seq<char>)
    ensures
        seq_lt(a, b) ==> !seq_lt(b, a),
    decreases a.len(),
{
    if a.len() > 0 && b.len() > 0 && a[0] == b[0] {
        lemma_lt_asym(a.drop_first(), b.drop_first());
    }
}

/// Of two different texts, one is below the other.
pub proof fn lemma_lt_total(a: Seq<char>, b: Seq<char>)
    ensures
        a != b ==> seq_lt(a, b) || seq_lt(b, a),
    decreases a.len(),
{
    if a.len() > 0 && b.len() > 0 {
        if a[0] == b[0] {
            lemma_lt_total(a.drop_first(), b.drop_first());
            if a.drop_first() == b.drop_first() {
                assert(a =~= seq![a[0]] + a.drop_first());
                assert(b =~= seq![b[0]] + b.drop_first());
            }
        }
    } else if a.len() == 0 && b.len() == 0 {
        assert(a =~= b);
    }
}

/// Being below is transitive.
pub proof fn lemma_lt_trans(a: Seq<char>, b: Seq<char>, c: Seq<char>)
    requires
        seq_lt(a, b),
        seq_lt(b, c),
    ensures
        seq_lt(a, c),
    decreases a.len(),
{
    if a.len() > 0 && b.len() > 0 && c.len() > 0 && a[0] == b[0] && b[0] == c[0] {
        lemma_lt_trans(a.drop_first(), b.drop_first(), c.drop_first());
    }
}

/// Code-point lexicographic `<` on strings, as `str`'s `Ord` orders them.
pub fn str_lt(a: &str, b: &str) -> (r: bool)
    ensures
        r == seq_lt(a@, b@),
{
    let x = chars_of(a);
    let y = chars_of(b);
    let mut i: usize = 0;
    assert(a@.skip(0) =~= a@);
    assert(b@.skip(0) =~= b@);
    while i < x.len() && i < y.len()
        invariant
            x@ == a@,
            y@ == b@,
            0 <= i <= x.len(),
            i <= y.len(),
            forall|j: int| 0 <= j < i ==> x@[j] == y@[j],
            seq_lt(a@, b@) == seq_lt(a@.skip(i as int), b@.skip(i as int)),
        decreases x.len() - i,
    {
        if x[i] != y[i] {
            return x[i] < y[i];
        }
        proof {
            assert(a@.skip(i as int).drop_first() =~= a@.skip(i + 1));
            assert(b@.skip(i as int).drop_first() =~= b@.skip(i + 1));
        }
        i = i + 1;
    }
    i < y.len()
}

/// Inserts a string into a strictly sorted list unless an equal one is present.
pub fn insert_sorted_unique(v: &mut Vec<String>, s: String)
    requires
        strictly_sorted(views(old(v)@)),
    ensures
        strictly_sorted(views(final(v)@)),
        views(final(v)@).to_set() == views(old(v)@).to_set().insert(s@),
{
    let ghost old_v = views(v@);
    let mut p: usize = 0;
    while p < v.len() && str_lt(v[p].as_str(), s.as_str())
        invariant
            views(v@) == old_v,
            strictly_sorted(old_v),
            0 <= p <= v.len(),
            forall|j: int| 0 <= j < p ==> seq_lt(#[trigger] old_v[j], s@),
        decreases v.len() - p,
    {
        p = p + 1;
    }
    if p < v.len() && str_eq(v[p].as_str(), s.as_str()) {
        proof {
            assert(old_v.to_set().insert(s@) =~= old_v.to_set()) by {
                assert(old_v[p as int] == s@);
            }
        }
        return;
    }
    proof {
        if p < v.len() {
            lemma_lt_total(old_v[p as int], s@);
        }
    }
    v.insert(p, s);
    proof {
        let nv = views(v@);
        assert(nv =~= old_v.insert(p as int, s@));
        assert forall|i: int, j: int| 0 <= i < j < nv.len() implies seq_lt(
            #[trigger] nv[i],
            #[trigger] nv[j],
        ) by {
            if j < p {
            } else if i < p && j == p {
            } else if i < p && j > p {
                assert(nv[j] == old_v[j - 1]);
                if j - 1 > p {
                    lemma_lt_trans(s@, old_v[p as int], old_v[j - 1]);
                }
                lemma_lt_trans(nv[i], s@, nv[j]);
            } else if i == p {
                assert(nv[j] == old_v[j - 1]);
                if j - 1 > p {
                    lemma_lt_trans(s@, old_v[p as int], old_v[j - 1]);
                }
            } else {
                assert(nv[i] == old_v[i - 1]);
                assert(nv[j] == old_v[j - 1]);
            }
        }
        assert(nv.to_set() =~= old_v.to_set().insert(s@)) by {
            assert forall|x: Seq<char>| nv.to_set().contains(x) implies old_v.to_set().insert(
                s@,
            ).contains(x) by {
                let k = choose|k: int| 0 <= k < nv.len() && nv[k] == x;
                if k < p {
                    assert(old_v[k] == x);
                } else if k > p {
                    assert(old_v[k - 1] == x);
                }
            }
            assert forall|x: Seq<char>| old_v.to_set().insert(s@).contains(x) implies nv.to_set().contains(
                x,
            ) by {
                if x == s@ {
                    assert(nv[p as int] == x);
                } else {
                    let k = choose|k: int| 0 <= k < old_v.len() && old_v[k] == x;
                    if k < p {
                        assert(nv[k] == x);
                    } else {
                        assert(nv[k + 1] == x);
                    }
                }
            }
        }
    }
}


// ---------------------------------------------------------------------------
// UTF-8 byte offsets
// ---------------------------------------------------------------------------

/// The number of bytes of a character in UTF-8, as `char::len_utf8` gives it.
pub open spec fn utf8_len(c: char) -> nat {
    let u = c as u32;
    if u < 0x80 {
        1
    } else if u < 0x800 {
        2
    } else if u < 0x10000 {
        3
    } else {
        4
    }
}

/// The number of bytes of a text in UTF-8, as `str::len` gives it.
pub open spec fn byte_len(s: Seq<char>) -> nat
    decreases s.len(),
{
    if s.len() == 0 {
        0
    } else {
        utf8_len(s[0]) + byte_len(s.drop_first())
    }
}

/// The byte offset where the character with index `k` starts.
pub open spec fn byte_offset(s: Seq<char>, k: int) -> nat {
    byte_len(s.take(k))
}

/// How many whole characters fit in the first `b` bytes: the character index of the
/// largest character boundary at or below byte offset `b`.
pub open spec fn chars_within(s: Seq<char>, b: int) -> nat
    decreases s.len(),
{
    if s.len() == 0 || utf8_len(s[0]) > b {
        0
    } else {
        1 + chars_within(s.drop_first(), b - utf8_len(s[0]))
    }
}

/// The UTF-8 length of two texts together is the sum of theirs.
pub proof fn lemma_byte_len_concat(a: Seq<char>, b: Seq<char>)
    ensures
        byte_len(a + b) == byte_len(a) + byte_len(b),
    decreases a.len(),
{
    if a.len() > 0 {
        lemma_byte_len_concat(a.drop_first(), b);
        assert((a + b).drop_first() =~= a.drop_first() + b);
    } else {
        assert(a + b =~= b);
    }
}

/// The byte offset of the next character adds the length of this one.
pub proof fn lemma_byte_offset_step(s: Seq<char>, k: int)
    requires
        0 <= k < s.len(),
    ensures
        byte_offset(s, k + 1) == byte_offset(s, k) + utf8_len(s[k]),
{
    assert(s.take(k + 1) =~= s.take(k) + seq![s[k]]);
    lemma_byte_len_concat(s.take(k), seq![s[k]]);
    lemma_byte_len_single(s[k]);
}

/// A single character takes its UTF-8 length.
pub proof fn lemma_byte_len_single(c: char)
    ensures
        byte_len(seq![c]) == utf8_len(c),
{
    assert(seq![c].drop_first() =~= Seq::<char>::empty());
    assert(byte_len(Seq::<char>::empty()) == 0);
}

/// Byte offsets grow by at least one per character.
pub proof fn lemma_byte_offset_mono(s: Seq<char>, j: int, k: int)
    requires
        0 <= j <= k <= s.len(),
    ensures
        byte_offset(s, j) + (k - j) <= byte_offset(s, k),
    decreases k - j,
{
    if j < k {
        lemma_byte_offset_mono(s, j, k - 1);
        lemma_byte_offset_step(s, k - 1);
    }
}

/// `chars_within` is the largest `k` whose offset does not pass `b`.
pub proof fn lemma_chars_within(s: Seq<char>, b: int)
    ensures
        chars_within(s, b) <= s.len(),
        b >= 0 ==> byte_offset(s, chars_within(s, b) as int) <= b,
        chars_within(s, b) < s.len() ==> byte_offset(s, chars_within(s, b) as int + 1) > b,
    decreases s.len(),
{
    if s.len() == 0 || utf8_len(s[0]) > b {
        assert(s.take(0) =~= Seq::<char>::empty());
        assert(byte_len(s.take(0)) == 0);
        if s.len() > 0 {
            lemma_byte_offset_step(s, 0);
        }
    } else {
        let t = s.drop_first();
        let w = utf8_len(s[0]);
        lemma_chars_within(t, b - w);
        let k = chars_within(t, b - w) as int;
        assert(s.take(k + 1) =~= seq![s[0]] + t.take(k));
        lemma_byte_len_concat(seq![s[0]], t.take(k));
        lemma_byte_len_single(s[0]);
        if k < t.len() {
            assert(s.take(k + 2) =~= seq![s[0]] + t.take(k + 1));
            lemma_byte_len_concat(seq![s[0]], t.take(k + 1));
        }
    }
}

/// The byte length of one character, as `char::len_utf8` gives it.
pub fn char_len_utf8(c: char) -> (n: usize)
    ensures
        n == utf8_len(c),
{
    let u = c as u32;
    if u < 0x80 {
        1
    } else if u < 0x800 {
        2
    } else if u < 0x10000 {
        3
    } else {
        4
    }
}

/// The byte offsets of every character boundary of `v`: `offs[k]` is where
/// character `k` starts, and the last one is the byte length.
pub fn boundary_offsets(v: &Vec<char>) -> (offs: Vec<usize>)
    requires
        byte_len(v@) <= usize::MAX,
    ensures
        offs@.len() == v@.len() + 1,
        forall|k: int| 0 <= k <= v@.len() ==> offs@[k] == byte_offset(v@, k),
{
    let mut offs: Vec<usize> = Vec::new();
    offs.push(0);
    let mut pos: usize = 0;
    let mut k: usize = 0;
    assert(v@.take(0) =~= Seq::<char>::empty());
    assert(v@.take(v@.len() as int) =~= v@);
    while k < v.len()
        invariant
            0 <= k <= v.len(),
            byte_len(v@) <= usize::MAX,
            offs@.len() == k + 1,
            pos == byte_offset(v@, k as int),
            forall|j: int| 0 <= j <= k ==> offs@[j] == byte_offset(v@, j),
            byte_offset(v@, v@.len() as int) == byte_len(v@),
        decreases v.len() - k,
    {
        proof {
            lemma_byte_offset_step(v@, k as int);
            lemma_byte_offset_mono(v@, k + 1, v@.len() as int);
        }
        pos = pos + char_len_utf8(v[k]);
        offs.push(pos);
        k = k + 1;
    }
    offs
}

/// Index of the character boundary for a byte cursor: the cursor is first limited to
/// the text's byte length and then moved down to a character boundary.
pub fn cursor_char_index(offs: &Vec<usize>, v: &Vec<char>, cursor: usize) -> (k: usize)
    requires
        offs@.len() == v@.len() + 1,
        forall|j: int| 0 <= j <= v@.len() ==> offs@[j] == byte_offset(v@, j),
    ensures
        k == chars_within(v@, cursor as int),
        k <= v@.len(),
{
    let mut k: usize = 0;
    proof {
        lemma_chars_within(v@, cursor as int);
        assert(v@.take(0) =~= Seq::<char>::empty());
    }
    while k < v.len() && offs[k + 1] <= cursor
        invariant
            offs@.len() == v@.len() + 1,
            forall|j: int| 0 <= j <= v@.len() ==> offs@[j] == byte_offset(v@, j),
            0 <= k <= v.len(),
            k <= chars_within(v@, cursor as int),
        decreases v.len() - k,
    {
        proof {
            lemma_chars_within(v@, cursor as int);
            let c = chars_within(v@, cursor as int) as int;
            if k + 1 > c {
                // offs[k + 1] <= cursor would contradict the maximality of c
                lemma_byte_offset_mono(v@, c + 1, k + 1);
            }
        }
        k = k + 1;
    }
    proof {
        lemma_chars_within(v@, cursor as int);
        let c = chars_within(v@, cursor as int) as int;
        if k < c {
            lemma_byte_offset_mono(v@, k + 1, c);
        }
    }
    k
}


/// The byte length of a string slice, as `str::len` gives it: the number of bytes of
/// its characters' UTF-8 encodings. vstd's own specification of `str::len` casts that
/// number to `usize` and states no bound under which the cast keeps it, so the
/// equality below is stated here for `str::len` itself.
#[verifier::external_body]
pub(crate) fn str_len(s: &str) -> (n: usize)
    ensures
        n == byte_len(s@),
{
    s.len()
}


/// `v[..a] + mid + v[b..]` as a string.
pub fn splice(v: &Vec<char>, a: usize, b: usize, mid: &str) -> (r: String)
    requires
        a <= b <= v@.len(),
    ensures
        r@ == v@.take(a as int) + mid@ + v@.skip(b as int),
{
    let mut r = string_of(v, 0, a);
    push_str(&mut r, mid);
    let tail = string_of(v, b, v.len());
    push_str(&mut r, tail.as_str());
    assert(v@.subrange(0, a as int) =~= v@.take(a as int));
    assert(v@.subrange(b as int, v@.len() as int) =~= v@.skip(b as int));
    r
}

/// A byte offset that falls on a character boundary of the text.
pub open spec fn at_boundary(s: Seq<char>, b: int) -> bool {
    0 <= b <= byte_len(s) && byte_offset(s, chars_within(s, b) as int) == b
}

/// The characters within the byte offset of the `k`-th character are `k`.
pub proof fn lemma_offset_chars_within(s: Seq<char>, k: int)
    requires
        0 <= k <= s.len(),
    ensures
        chars_within(s, byte_offset(s, k) as int) == k,
{
    let b = byte_offset(s, k) as int;
    lemma_chars_within(s, b);
    let c = chars_within(s, b) as int;
    if c < k {
        lemma_byte_offset_mono(s, c + 1, k);
    } else if c > k {
        lemma_byte_offset_mono(s, k + 1, c);
        lemma_byte_offset_step(s, k);
    }
}

/// The byte offset past the last character is the UTF-8 length.
pub proof fn lemma_byte_len_offset(s: Seq<char>)
    ensures
        byte_offset(s, s.len() as int) == byte_len(s),
{
    assert(s.take(s.len() as int) =~= s);
}


/// The boundary offsets of a string slice's characters.
pub fn boundary_offsets_str(s: &str, v: &Vec<char>) -> (offs: Vec<usize>)
    requires
        v@ == s@,
    ensures
        offs@.len() == v@.len() + 1,
        forall|k: int| 0 <= k <= v@.len() ==> offs@[k] == byte_offset(v@, k),
{
    let _n = str_len(s);
    boundary_offsets(v)
}

} // verus!
