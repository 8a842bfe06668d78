//! Undoing transfer and content encodings of a captured body for preview.

use crate::capture::model::{opt_view, utf8_text, CapturedBody};
use crate::text;
use std::io::Read;
use vstd::prelude::*;

verus! {

/// The most bytes a preview decodes unless told otherwise.
pub const DEFAULT_PREVIEW_DECODE_LIMIT: usize = 2097152;

// ---------------------------------------------------------------------------
// Hexadecimal chunk sizes
// ---------------------------------------------------------------------------

/// An ASCII hexadecimal digit.
pub open spec fn is_hex_digit(c: char) -> bool {
    ('0' <= c && c <= '9') || ('a' <= c && c <= 'f') || ('A' <= c && c <= 'F')
}

/// The value of a hexadecimal digit.
pub open spec fn hex_digit_value(c: char) -> nat {
    if '0' <= c && c <= '9' {
        ((c as nat) - 48) as nat
    } else if 'a' <= c && c <= 'f' {
        ((c as nat) - 87) as nat
    } else {
        ((c as nat) - 55) as nat
    }
}

/// A non-empty text of hexadecimal digits.
pub open spec fn all_hex(s: Seq<char>) -> bool {
    forall|i: int| 0 <= i < s.len() ==> is_hex_digit(s[i])
}

/// The value of a string of hexadecimal digits.
pub open spec fn hex_digits_value(s: Seq<char>) -> nat
    decreases s.len(),
{
    if s.len() == 0 {
        0
    } else {
        hex_digits_value(s.drop_last()) * 16 + hex_digit_value(s.last())
    }
}

/// `from_str_radix` with radix 16 for an unsigned type whose largest value is `max`:
/// an optional `+`, then one or more hexadecimal digits whose value fits.
pub open spec fn parse_hex(s: Seq<char>, max: nat) -> Option<nat> {
    let d = if s.len() > 0 && s[0] == '+' {
        s.drop_first()
    } else {
        s
    };
    if d.len() > 0 && all_hex(d) && hex_digits_value(d) <= max {
        Some(hex_digits_value(d))
    } else {
        None
    }
}

proof fn lemma_hex_value_monotone(s: Seq<char>, k: int)
    requires
        0 <= k <= s.len(),
        all_hex(s),
    ensures
        hex_digits_value(s.take(k)) <= hex_digits_value(s),
    decreases s.len() - k,
{
    if k < s.len() {
        lemma_hex_value_monotone(s, k + 1);
        assert(s.take(k + 1).drop_last() =~= s.take(k));
    } else {
        assert(s.take(k) =~= s);
    }
}

/// Parses a chunk size, as `usize::from_str_radix(text, 16)` does.
pub fn parse_hex_usize(s: &str) -> (r: Option<usize>)
    ensures
        match parse_hex(s@, usize::MAX as nat) {
            Some(n) => r == Some(n as usize),
            None => r is None,
        },
{
    let v = text::chars_of(s);
    let start: usize = if v.len() > 0 && v[0] == '+' {
        1
    } else {
        0
    };
    let ghost d = if s@.len() > 0 && s@[0] == '+' {
        s@.drop_first()
    } else {
        s@
    };
    assert(d =~= v@.skip(start as int));
    if start == v.len() {
        return None;
    }
    let mut acc: usize = 0;
    let mut i = start;
    while i < v.len()
        invariant
            v@ == s@,
            d == v@.skip(start as int),
            d == (if s@.len() > 0 && s@[0] == '+' {
                s@.drop_first()
            } else {
                s@
            }),
            start <= i <= v.len(),
            all_hex(d.take(i - start)),
            acc == hex_digits_value(d.take(i - start)),
        decreases v.len() - i,
    {
        let c = v[i];
        let digit: u32 = if '0' <= c && c <= '9' {
            c as u32 - 48
        } else if 'a' <= c && c <= 'f' {
            c as u32 - 87
        } else if 'A' <= c && c <= 'F' {
            c as u32 - 55
        } else {
            proof {
                assert(d[i - start] == c);
                assert(!all_hex(d));
            }
            return None;
        };
        proof {
            assert(d.take(i - start + 1).drop_last() =~= d.take(i - start));
            assert(d.take(i - start + 1).last() == c);
            assert(all_hex(d.take(i - start + 1))) by {
                assert forall|j: int| 0 <= j < i - start + 1 implies is_hex_digit(
                    #[trigger] d.take(i - start + 1)[j],
                ) by {
                    if j < i - start {
                        assert(d.take(i - start + 1)[j] == d.take(i - start)[j]);
                    }
                }
            }
        }
        let next: u128 = (acc as u128) * 16 + (digit as u128);
        if next > usize::MAX as u128 {
            proof {
                assert(hex_digits_value(d.take(i - start + 1)) == acc * 16 + digit);
                if all_hex(d) {
                    lemma_hex_value_monotone(d, i - start + 1);
                }
            }
            return None;
        }
        acc = next as usize;
        i = i + 1;
    }
    assert(d.take(i - start) =~= d);
    Some(acc)
}

// ---------------------------------------------------------------------------
// Chunked transfer encoding
// ---------------------------------------------------------------------------

/// The first index at or after `from` that holds byte `b`.
pub open spec fn find_byte(s: Seq<u8>, from: int, b: u8) -> Option<int>
    decreases s.len() - from,
{
    if from < 0 || from >= s.len() {
        None
    } else if s[from] == b {
        Some(from)
    } else {
        find_byte(s, from + 1, b)
    }
}

/// Where a byte is first found from a place on.
pub proof fn lemma_find_byte(s: Seq<u8>, from: int, b: u8)
    ensures
        find_byte(s, from, b) matches Some(i) ==> from <= i < s.len() && s[i] == b,
    decreases s.len() - from,
{
    if 0 <= from < s.len() && s[from] != b {
        lemma_find_byte(s, from + 1, b);
    }
}

/// The text before the first `c`, as the first piece of `str::split` gives it.
pub open spec fn first_piece(s: Seq<char>, c: char) -> Seq<char> {
    match text::find(s, c) {
        Some(i) => s.take(i as int),
        None => s,
    }
}

/// A chunk-size line without its line break and an optional carriage return.
pub open spec fn size_line(input: Seq<u8>, pos: int, line_end: int) -> Seq<u8> {
    let line = input.subrange(pos, line_end);
    if line.len() > 0 && line.last() == 13u8 {
        line.drop_last()
    } else {
        line
    }
}

/// The result of undoing chunked transfer encoding from byte `pos` on, where `out`
/// holds what was decoded so far (at most `limit` bytes) and `truncated` whether some
/// was left out: the decoded bytes and whether they were cut, or the error.
pub open spec fn chunked_from(input: Seq<u8>, pos: int, limit: nat, out: Seq<u8>, truncated: bool) -> Result<(Seq<u8>, bool), Seq<char>>
    decreases input.len() - pos,
{
    match find_byte(input, pos, 10u8) {
        None => Err("missing chunk size line ending"@),
        Some(le) => {
            proof {
                lemma_find_byte(input, pos, 10u8);
            }
            let line = size_line(input, pos, le);
            if !vstd::utf8::valid_utf8(line) {
                Err("chunk size is not valid ASCII"@)
            } else {
                let t = text::trim(first_piece(vstd::utf8::decode_utf8(line), ';'));
                match parse_hex(t, usize::MAX as nat) {
                    None => Err("invalid chunk size '"@ + t + "'"@),
                    Some(size) => {
                        let p = le + 1;
                        if size == 0 {
                            Ok((out, truncated))
                        } else if input.len() - p < size {
                            Err("chunk data is incomplete"@)
                        } else {
                            let keep: int = if out.len() < limit {
                                if limit - out.len() < size {
                                    limit - out.len()
                                } else {
                                    size as int
                                }
                            } else {
                                0
                            };
                            let out2 = out + input.subrange(p, p + keep);
                            let truncated2 = truncated || keep < size;
                            let q = p + size;
                            let q2 = if q < input.len() && input[q] == 13u8 {
                                q + 1
                            } else {
                                q
                            };
                            if q2 < input.len() && input[q2] == 10u8 {
                                chunked_from(input, q2 + 1, limit, out2, truncated2)
                            } else {
                                Err("chunk data is missing trailing CRLF"@)
                            }
                        }
                    },
                }
            }
        },
    }
}

/// Decoded bytes and whether they were cut at the limit.
pub struct DecodeBytes {
    pub bytes: Vec<u8>,
    pub truncated: bool,
}

fn find_newline(input: &[u8], from: usize) -> (r: Option<usize>)
    requires
        from <= input@.len(),
    ensures
        match r {
            Some(i) => find_byte(input@, from as int, 10u8) == Some(i as int),
            None => find_byte(input@, from as int, 10u8) is None,
        },
{
    let mut i = from;
    while i < input.len()
        invariant
            from <= i <= input@.len(),
            find_byte(input@, from as int, 10u8) == find_byte(input@, i as int, 10u8),
        decreases input.len() - i,
    {
        if input[i] == 10u8 {
            return Some(i);
        }
        i = i + 1;
    }
    None
}

fn copy_range(input: &[u8], a: usize, b: usize) -> (r: Vec<u8>)
    requires
        a <= b <= input@.len(),
    ensures
        r@ == input@.subrange(a as int, b as int),
{
    let mut r: Vec<u8> = Vec::new();
    let mut i = a;
    while i < b
        invariant
            a <= i <= b <= input@.len(),
            r@ =~= input@.subrange(a as int, i as int),
        decreases b - i,
    {
        r.push(input[i]);
        i = i + 1;
    }
    r
}

/// The text before the first `c`.
fn first_piece_str(s: &str, c: char) -> (r: String)
    ensures
        r@ == first_piece(s@, c),
{
    match text::split_once_char(s, c) {
        Some((a, _)) => a,
        None => text::to_owned(s),
    }
}

/// Undoes chunked transfer encoding, keeping at most `limit` decoded bytes.
pub fn decode_chunked(input: &[u8], limit: usize) -> (r: Result<DecodeBytes, String>)
    ensures
        match chunked_from(input@, 0, limit as nat, Seq::empty(), false) {
            Ok((b, t)) => r matches Ok(d) && d.bytes@ == b && d.truncated == t,
            Err(e) => r matches Err(m) && m@ == e,
        },
{
    let mut pos: usize = 0;
    let mut out: Vec<u8> = Vec::new();
    let mut truncated = false;
    let _n = input.len();
    loop
        invariant_except_break
            input@.len() <= usize::MAX,
            pos <= input@.len(),
            out@.len() <= limit,
            chunked_from(input@, 0, limit as nat, Seq::empty(), false) == chunked_from(
                input@,
                pos as int,
                limit as nat,
                out@,
                truncated,
            ),
        ensures
            chunked_from(input@, 0, limit as nat, Seq::empty(), false) == Ok::<(Seq<u8>, bool), Seq<char>>((out@, truncated)),
        decreases input@.len() - pos,
    {
        let ghost g = chunked_from(input@, pos as int, limit as nat, out@, truncated);
        let line_end = match find_newline(input, pos) {
            Some(i) => i,
            None => {
                proof {
                    reveal_strlit("missing chunk size line ending");
                }
                return Err(text::to_owned("missing chunk size line ending"));
            },
        };
        proof {
            lemma_find_byte(input@, pos as int, 10u8);
        }
        let mut line_stop = line_end;
        if line_stop > pos && input[line_stop - 1] == 13u8 {
            line_stop = line_stop - 1;
        }
        let line = copy_range(input, pos, line_stop);
        proof {
            let l = input@.subrange(pos as int, line_end as int);
            if l.len() > 0 && l.last() == 13u8 {
                assert(line@ =~= l.drop_last());
            } else {
                assert(line@ =~= l);
            }
        }
        let decoded = match utf8_text(line.as_slice()) {
            Some(t) => t,
            None => {
                proof {
                    reveal_strlit("chunk size is not valid ASCII");
                }
                return Err(text::to_owned("chunk size is not valid ASCII"));
            },
        };
        let piece = first_piece_str(decoded.as_str(), ';');
        let size_text = text::trim_str(piece.as_str());
        let size = match parse_hex_usize(size_text.as_str()) {
            Some(n) => n,
            None => {
                let mut m = text::to_owned("invalid chunk size '");
                text::push_str(&mut m, size_text.as_str());
                text::push_str(&mut m, "'");
                proof {
                    reveal_strlit("invalid chunk size '");
                    reveal_strlit("'");
                }
                return Err(m);
            },
        };
        pos = line_end + 1;
        if size == 0 {
            break;
        }
        if input.len() - pos < size {
            proof {
                reveal_strlit("chunk data is incomplete");
            }
            return Err(text::to_owned("chunk data is incomplete"));
        }
        let ghost out_before = out@;
        let keep: usize = if out.len() < limit {
            if limit - out.len() < size {
                limit - out.len()
            } else {
                size
            }
        } else {
            0
        };
        let mut k: usize = 0;
        while k < keep
            invariant
                0 <= k <= keep,
                keep <= size,
                input@.len() <= usize::MAX,
                pos <= input@.len(),
                size <= input@.len() - pos,
                out@ =~= out_before + input@.subrange(pos as int, pos + k),
            decreases keep - k,
        {
            assert(pos + k < input@.len());
            out.push(input[pos + k]);
            k = k + 1;
        }
        if keep < size {
            truncated = true;
        }
        pos = pos + size;
        if pos < input.len() && input[pos] == 13u8 {
            pos = pos + 1;
        }
        if pos < input.len() && input[pos] == 10u8 {
            pos = pos + 1;
        } else {
            proof {
                reveal_strlit("chunk data is missing trailing CRLF");
            }
            return Err(text::to_owned("chunk data is missing trailing CRLF"));
        }
    }
    Ok(DecodeBytes { bytes: out, truncated })
}

// ---------------------------------------------------------------------------
// What chunked decoding gives back
// ---------------------------------------------------------------------------

/// A chunk extension as a sender may write it after the size: nothing, or `;`
/// followed by ASCII text without a line feed.
pub open spec fn chunk_extension(ext: Seq<char>) -> bool {
    ext.len() == 0 || (ext[0] == ';' && forall|i: int|
        0 <= i < ext.len() ==> '\0' <= #[trigger] ext[i] <= '\u{7f}' && ext[i] != '\n')
}

/// One chunk as a sender writes it: the size line (`size` in hexadecimal, the
/// extension `ext` and CRLF), the data and CRLF.
pub open spec fn chunk_wire(size: Seq<char>, ext: Seq<char>, data: Seq<u8>) -> Seq<u8> {
    vstd::utf8::encode_utf8(size + ext) + seq![13u8, 10u8] + data + seq![13u8, 10u8]
}

/// A body of chunks as a sender writes it: each chunk, then the last chunk `0` CRLF
/// and the empty trailer CRLF.
pub open spec fn chunks_wire(cs: Seq<(Seq<char>, Seq<char>, Seq<u8>)>) -> Seq<u8>
    decreases cs.len(),
{
    if cs.len() == 0 {
        seq![48u8, 13u8, 10u8, 13u8, 10u8]
    } else {
        chunk_wire(cs[0].0, cs[0].1, cs[0].2) + chunks_wire(cs.drop_first())
    }
}

/// The data of the chunks, one after the other.
pub open spec fn chunks_data(cs: Seq<(Seq<char>, Seq<char>, Seq<u8>)>) -> Seq<u8>
    decreases cs.len(),
{
    if cs.len() == 0 {
        Seq::empty()
    } else {
        cs[0].2 + chunks_data(cs.drop_first())
    }
}

/// A chunk whose data is not empty, whose size is a hexadecimal numeral of the
/// data's length and whose extension is well formed.
pub open spec fn sized_chunk(c: (Seq<char>, Seq<char>, Seq<u8>)) -> bool {
    c.0.len() > 0 && all_hex(c.0) && chunk_extension(c.1) && c.2.len() > 0 && hex_digits_value(c.0)
        == c.2.len()
}

/// The first `limit` bytes of `s`, or all of it when it is shorter.
pub open spec fn capped(s: Seq<u8>, limit: nat) -> Seq<u8> {
    if s.len() <= limit {
        s
    } else {
        s.take(limit as int)
    }
}

proof fn lemma_find_byte_first(s: Seq<u8>, from: int, j: int, b: u8)
    requires
        0 <= from <= j < s.len(),
        s[j] == b,
        forall|k: int| from <= k < j ==> s[k] != b,
    ensures
        find_byte(s, from, b) == Some(j),
    decreases j - from,
{
    if from < j {
        lemma_find_byte_first(s, from + 1, j, b);
    }
}

/// A size line written at `pos` (a hexadecimal size and an extension) is read back
/// as its size.
proof fn lemma_size_line_at(input: Seq<u8>, pos: int, size: Seq<char>, ext: Seq<char>)
    requires
        size.len() > 0,
        all_hex(size),
        chunk_extension(ext),
        0 <= pos,
        pos + vstd::utf8::encode_utf8(size + ext).len() + 2 <= input.len(),
        input.subrange(pos, pos + vstd::utf8::encode_utf8(size + ext).len() + 2) == vstd::utf8::encode_utf8(
            size + ext,
        ) + seq![13u8, 10u8],
    ensures
        ({
            let le = pos + vstd::utf8::encode_utf8(size + ext).len() + 1;
            &&& find_byte(input, pos, 10u8) == Some(le)
            &&& size_line(input, pos, le) == vstd::utf8::encode_utf8(size + ext)
            &&& vstd::utf8::valid_utf8(size_line(input, pos, le))
            &&& text::trim(first_piece(vstd::utf8::decode_utf8(size_line(input, pos, le)), ';')) == size
        }),
{
    let line = size + ext;
    let e = vstd::utf8::encode_utf8(line);
    assert forall|i: int| 0 <= i < line.len() implies '\0' <= #[trigger] line[i] <= '\u{7f}' && line[i]
        != '\n' by {
        if i < size.len() {
            assert(line[i] == size[i]);
            assert(is_hex_digit(size[i]));
        } else {
            assert(line[i] == ext[i - size.len()]);
        }
    }
    assert(vstd::utf8::is_ascii_chars(line));
    vstd::utf8::is_ascii_chars_encode_utf8(line);
    let le = pos + e.len() + 1;
    assert forall|k: int| pos <= k < le implies input[k] != 10u8 by {
        assert(input[k] == input.subrange(pos, pos + e.len() + 2)[k - pos]);
        if k < pos + e.len() {
            assert(e[k - pos] == line[k - pos] as u8);
            assert(line[k - pos] != '\n');
        }
    }
    assert(input[le] == input.subrange(pos, pos + e.len() + 2)[le - pos]);
    lemma_find_byte_first(input, pos, le, 10u8);
    assert(input.subrange(pos, le) =~= e.push(13u8));
    assert(input.subrange(pos, le).drop_last() =~= e);
    vstd::utf8::encode_utf8_valid_utf8(line);
    vstd::utf8::encode_utf8_decode_utf8(line);
    assert forall|j: int| 0 <= j < size.len() implies size[j] != ';' by {
        assert(is_hex_digit(size[j]));
    }
    if ext.len() == 0 {
        assert(line =~= size);
        text::lemma_find_none(size, ';');
    } else {
        assert forall|j: int| 0 <= j < size.len() implies line[j] != ';' by {
            assert(line[j] == size[j]);
        }
        assert(line[size.len() as int] == ';');
        text::lemma_find_at(line, ';', size.len() as int);
        assert(line.take(size.len() as int) =~= size);
    }
    assert(first_piece(line, ';') == size);
    assert(is_hex_digit(size[0]));
    assert(is_hex_digit(size.last()));
    assert(!text::is_ws(size[0]));
    assert(!text::is_ws(size.last()));
    assert(text::trim_start(size) == size);
    assert(text::trim_end(size) == size);
}

/// The last chunk ends decoding with what was decoded so far.
proof fn lemma_last_chunk_at(input: Seq<u8>, pos: int, limit: nat, out: Seq<u8>, truncated: bool)
    requires
        0 <= pos,
        pos + 5 <= input.len(),
        input.subrange(pos, pos + 5) == seq![48u8, 13u8, 10u8, 13u8, 10u8],
    ensures
        chunked_from(input, pos, limit, out, truncated) == Ok::<(Seq<u8>, bool), Seq<char>>((out, truncated)),
{
    let zero = seq!['0'];
    assert(vstd::utf8::is_ascii_chars(zero));
    vstd::utf8::is_ascii_chars_encode_utf8(zero);
    assert(zero + Seq::<char>::empty() =~= zero);
    assert(vstd::utf8::encode_utf8(zero) =~= seq![48u8]);
    assert(input.subrange(pos, pos + 3) =~= seq![48u8, 13u8, 10u8]) by {
        assert forall|k: int| 0 <= k < 3 implies input.subrange(pos, pos + 3)[k] == seq![48u8, 13u8, 10u8][k] by {
            assert(input[pos + k] == input.subrange(pos, pos + 5)[k]);
        }
    }
    assert(vstd::utf8::encode_utf8(zero) + seq![13u8, 10u8] =~= seq![48u8, 13u8, 10u8]);
    lemma_size_line_at(input, pos, zero, Seq::empty());
    assert(zero.drop_last() =~= Seq::<char>::empty());
    assert(('0' as nat) == 48);
    assert(hex_digit_value(zero.last()) == 0);
    assert(hex_digits_value(Seq::<char>::empty()) == 0);
    assert(hex_digits_value(zero) == hex_digits_value(zero.drop_last()) * 16 + hex_digit_value(zero.last()));
    assert(hex_digits_value(zero) == 0);
    assert(parse_hex(zero, usize::MAX as nat) == Some(0nat));
}

/// Where a chunk is written at `pos`: its size line ends at `le`, its data follows
/// and CRLF after it; the next chunk starts after that.
proof fn lemma_chunk_at(input: Seq<u8>, pos: int, size: Seq<char>, ext: Seq<char>, data: Seq<u8>, rest: Seq<u8>)
    requires
        sized_chunk((size, ext, data)),
        0 <= pos,
        pos + chunk_wire(size, ext, data).len() + rest.len() <= input.len(),
        input.subrange(pos, pos + chunk_wire(size, ext, data).len() + rest.len()) == chunk_wire(size, ext, data) + rest,
        input.len() <= usize::MAX,
    ensures
        ({
            let e = vstd::utf8::encode_utf8(size + ext);
            let le = pos + e.len() + 1;
            let p = le + 1;
            let q = p + data.len();
            &&& find_byte(input, pos, 10u8) == Some(le)
            &&& vstd::utf8::valid_utf8(size_line(input, pos, le))
            &&& text::trim(first_piece(vstd::utf8::decode_utf8(size_line(input, pos, le)), ';')) == size
            &&& parse_hex(size, usize::MAX as nat) == Some(data.len())
            &&& input.len() - p >= data.len()
            &&& input.subrange(p, q) == data
            &&& q < input.len() && input[q] == 13u8
            &&& q + 1 < input.len() && input[q + 1] == 10u8
            &&& q + 2 == pos + chunk_wire(size, ext, data).len()
            &&& input.subrange(q + 2, q + 2 + rest.len()) == rest
        }),
{
    let e = vstd::utf8::encode_utf8(size + ext);
    let cw = chunk_wire(size, ext, data);
    let w = cw + rest;
    let n = cw.len() + rest.len();
    assert forall|k: int| 0 <= k < n implies input[pos + k] == w[k] by {
        assert(input[pos + k] == input.subrange(pos, pos + n)[k]);
    }
    assert(input.subrange(pos, pos + e.len() + 2int) =~= e + seq![13u8, 10u8]) by {
        assert forall|k: int| 0 <= k < e.len() + 2 implies input.subrange(pos, pos + e.len() + 2int)[k] == (e
            + seq![13u8, 10u8])[k] by {
            assert(input[pos + k] == w[k]);
        }
    }
    lemma_size_line_at(input, pos, size, ext);
    assert(is_hex_digit(size[0]));
    let p = pos + e.len() + 2;
    let q = p + data.len();
    assert(input.subrange(p, q) =~= data) by {
        assert forall|k: int| 0 <= k < data.len() implies input.subrange(p, q)[k] == data[k] by {
            assert(input[p + k] == w[e.len() + 2 + k]);
        }
    }
    assert(input[q] == w[e.len() + 2int + data.len()]);
    assert(input[q + 1] == w[e.len() + 3int + data.len()]);
    assert(input.subrange(q + 2, q + 2 + rest.len()) =~= rest) by {
        assert forall|k: int| 0 <= k < rest.len() implies input.subrange(q + 2, q + 2 + rest.len())[k] == rest[k] by {
            assert(input[q + 2 + k] == w[cw.len() + k]);
        }
    }
}

/// Decoding from `pos`, where the chunks `cs` are written, appends their data to
/// what was decoded so far, up to the limit.
#[verifier::spinoff_prover]
proof fn lemma_chunked_from_wire(
    input: Seq<u8>,
    pos: int,
    cs: Seq<(Seq<char>, Seq<char>, Seq<u8>)>,
    limit: nat,
    out: Seq<u8>,
    truncated: bool,
)
    requires
        forall|i: int| 0 <= i < cs.len() ==> sized_chunk(#[trigger] cs[i]),
        0 <= pos,
        pos + chunks_wire(cs).len() <= input.len(),
        input.subrange(pos, pos + chunks_wire(cs).len()) == chunks_wire(cs),
        input.len() <= usize::MAX,
        out.len() <= limit,
    ensures
        chunked_from(input, pos, limit, out, truncated) == Ok::<(Seq<u8>, bool), Seq<char>>(
            (capped(out + chunks_data(cs), limit), truncated || out.len() + chunks_data(cs).len() > limit),
        ),
    decreases cs.len(),
{
    if cs.len() == 0 {
        lemma_last_chunk_at(input, pos, limit, out, truncated);
        assert(out + chunks_data(cs) =~= out);
    } else {
        let size = cs[0].0;
        let ext = cs[0].1;
        let data = cs[0].2;
        let rest = cs.drop_first();
        assert(sized_chunk(cs[0]));
        assert(chunks_wire(cs) == chunk_wire(size, ext, data) + chunks_wire(rest));
        lemma_chunk_at(input, pos, size, ext, data, chunks_wire(rest));
        let e = vstd::utf8::encode_utf8(size + ext);
        let p = pos + e.len() + 2;
        let next = p + data.len() + 2;
        let keep: int = if out.len() < limit {
            if limit - out.len() < data.len() {
                limit - out.len()
            } else {
                data.len() as int
            }
        } else {
            0
        };
        let out2 = out + input.subrange(p, p + keep);
        assert(input.subrange(p, p + keep) =~= data.take(keep)) by {
            assert(input.subrange(p, p + keep) =~= input.subrange(p, p + data.len()).take(keep));
        }
        assert forall|i: int| 0 <= i < rest.len() implies sized_chunk(#[trigger] rest[i]) by {
            assert(rest[i] == cs[i + 1]);
        }
        lemma_chunked_from_wire(input, next, rest, limit, out2, truncated || keep < data.len());
        assert(chunks_data(cs) == data + chunks_data(rest));
        let d = chunks_data(rest);
        if out.len() + data.len() <= limit {
            assert(out2 =~= out + data);
            assert(out2 + d =~= out + chunks_data(cs));
        } else {
            assert(out2 =~= (out + data).take(limit as int));
            assert(capped(out2 + d, limit) =~= out2);
            assert((out + chunks_data(cs)).take(limit as int) =~= out2);
        }
    }
}

/// Undoing chunked transfer encoding of a body that a sender wrote as chunks gives
/// the chunks' data joined in order, cut to the limit, and says it was cut exactly
/// when the data is longer than the limit.
pub proof fn lemma_chunked_joins_chunks(cs: Seq<(Seq<char>, Seq<char>, Seq<u8>)>, limit: nat)
    requires
        forall|i: int| 0 <= i < cs.len() ==> sized_chunk(#[trigger] cs[i]),
        chunks_wire(cs).len() <= usize::MAX,
    ensures
        chunked_from(chunks_wire(cs), 0, limit, Seq::empty(), false) == Ok::<(Seq<u8>, bool), Seq<char>>(
            (capped(chunks_data(cs), limit), chunks_data(cs).len() > limit),
        ),
{
    let w = chunks_wire(cs);
    assert(w.subrange(0, w.len() as int) =~= w);
    lemma_chunked_from_wire(w, 0, cs, limit, Seq::empty(), false);
    assert(Seq::<u8>::empty() + chunks_data(cs) =~= chunks_data(cs));
}

// ---------------------------------------------------------------------------
// Content encodings
// ---------------------------------------------------------------------------

/// The name of what reading a gzip stream gives: the first `max` decompressed bytes
/// of `input`, or the error's text.
pub uninterp spec fn gzip_read_result(input: Seq<u8>, max: u64) -> Result<Seq<u8>, Seq<char>>;

/// The name of what reading a zlib stream gives.
pub uninterp spec fn zlib_read_result(input: Seq<u8>, max: u64) -> Result<Seq<u8>, Seq<char>>;

/// The name of what reading a raw deflate stream gives.
pub uninterp spec fn deflate_read_result(input: Seq<u8>, max: u64) -> Result<Seq<u8>, Seq<char>>;

/// The model of a decoding result.
pub open spec fn bytes_result(r: Result<Vec<u8>, String>) -> Result<Seq<u8>, Seq<char>> {
    match r {
        Ok(v) => Ok(v@),
        Err(e) => Err(e@),
    }
}

/// Reads at most `max` bytes from `flate2::read::GzDecoder` over `input`, with
/// `Read::take` and `Read::read_to_end`; an error becomes its text. The take caps the
/// length.
#[verifier::external_body]
fn gzip_read(input: &[u8], max: u64) -> (r: Result<Vec<u8>, String>)
    ensures
        bytes_result(r) == gzip_read_result(input@, max),
        r matches Ok(v) ==> v@.len() <= max,
{
    let mut bytes = Vec::new();
    match flate2::read::GzDecoder::new(input).take(max).read_to_end(&mut bytes) {
        Ok(_) => Ok(bytes),
        Err(error) => Err(error.to_string()),
    }
}

/// Reads at most `max` bytes from `flate2::read::ZlibDecoder` over `input`.
#[verifier::external_body]
fn zlib_read(input: &[u8], max: u64) -> (r: Result<Vec<u8>, String>)
    ensures
        bytes_result(r) == zlib_read_result(input@, max),
        r matches Ok(v) ==> v@.len() <= max,
{
    let mut bytes = Vec::new();
    match flate2::read::ZlibDecoder::new(input).take(max).read_to_end(&mut bytes) {
        Ok(_) => Ok(bytes),
        Err(error) => Err(error.to_string()),
    }
}

/// Reads at most `max` bytes from `flate2::read::DeflateDecoder` over `input`.
#[verifier::external_body]
fn deflate_read(input: &[u8], max: u64) -> (r: Result<Vec<u8>, String>)
    ensures
        bytes_result(r) == deflate_read_result(input@, max),
        r matches Ok(v) ==> v@.len() <= max,
{
    let mut bytes = Vec::new();
    match flate2::read::DeflateDecoder::new(input).take(max).read_to_end(&mut bytes) {
        Ok(_) => Ok(bytes),
        Err(error) => Err(error.to_string()),
    }
}

/// How many decompressed bytes are read for a limit: one more than the limit, so that
/// a cut can be told from an exact fit.
pub open spec fn read_cap(limit: usize) -> u64 {
    if limit as u64 == u64::MAX {
        u64::MAX
    } else {
        (limit + 1) as u64
    }
}

/// What was read, cut to `limit` bytes, and whether anything was cut.
pub open spec fn limited(raw: Result<Seq<u8>, Seq<char>>, limit: nat) -> Result<(Seq<u8>, bool), Seq<char>> {
    match raw {
        Ok(b) => if b.len() > limit {
            Ok((b.take(limit as int), true))
        } else {
            Ok((b, false))
        },
        Err(e) => Err(e),
    }
}

/// Cuts what a decoder read to the limit.
pub fn limit_read(raw: Result<Vec<u8>, String>, limit: usize) -> (r: Result<DecodeBytes, String>)
    ensures
        match limited(bytes_result(raw), limit as nat) {
            Ok((b, t)) => r matches Ok(d) && d.bytes@ == b && d.truncated == t,
            Err(e) => r matches Err(m) && m@ == e,
        },
{
    match raw {
        Ok(mut bytes) => {
            let truncated = bytes.len() > limit;
            if truncated {
                bytes.truncate(limit);
            }
            Ok(DecodeBytes { bytes, truncated })
        },
        Err(e) => Err(e),
    }
}

/// Undoing one content encoding, keeping at most `limit` bytes: gzip (also written
/// `x-gzip`), or deflate as zlib and, failing that, as a raw deflate stream.
pub open spec fn content_decode(input: Seq<u8>, encoding: Seq<char>, limit: usize) -> Result<(Seq<u8>, bool), Seq<char>> {
    let cap = read_cap(limit);
    if text::eq_ignore_case(encoding, "gzip"@) || text::eq_ignore_case(encoding, "x-gzip"@) {
        limited(gzip_read_result(input, cap), limit as nat)
    } else if text::eq_ignore_case(encoding, "deflate"@) {
        match limited(zlib_read_result(input, cap), limit as nat) {
            Ok(x) => Ok(x),
            Err(_) => limited(deflate_read_result(input, cap), limit as nat),
        }
    } else {
        Err("unsupported content encoding"@)
    }
}

fn decode_content_encoding(input: &[u8], encoding: &str, limit: usize) -> (r: Result<DecodeBytes, String>)
    ensures
        match content_decode(input@, encoding@, limit) {
            Ok((b, t)) => r matches Ok(d) && d.bytes@ == b && d.truncated == t,
            Err(e) => r matches Err(m) && m@ == e,
        },
{
    let cap: u64 = if limit as u64 == u64::MAX {
        u64::MAX
    } else {
        limit as u64 + 1
    };
    if text::eq_ignore_case_str(encoding, "gzip") || text::eq_ignore_case_str(encoding, "x-gzip") {
        limit_read(gzip_read(input, cap), limit)
    } else if text::eq_ignore_case_str(encoding, "deflate") {
        match limit_read(zlib_read(input, cap), limit) {
            Ok(d) => Ok(d),
            Err(_) => limit_read(deflate_read(input, cap), limit),
        }
    } else {
        proof {
            reveal_strlit("unsupported content encoding");
        }
        Err(text::to_owned("unsupported content encoding"))
    }
}

// ---------------------------------------------------------------------------
// Preview
// ---------------------------------------------------------------------------

/// Whether a comma-separated header value lists `token`, in any letter case.
pub open spec fn lists_token(value: Option<Seq<char>>, token: Seq<char>) -> bool {
    lists_token_in(or_empty(value), token)
}

/// The text of an optional value, empty when there is none.
pub open spec fn or_empty(value: Option<Seq<char>>) -> Seq<char> {
    match value {
        Some(v) => v,
        None => Seq::empty(),
    }
}

/// Whether a comma-separated list names `token`, in any letter case.
pub open spec fn lists_token_in(v: Seq<char>, token: Seq<char>) -> bool {
    exists|i: int|
        0 <= i < text::split(v, ',').len() && text::eq_ignore_case(
            text::trim(#[trigger] text::split(v, ',')[i]),
            token,
        )
}

/// Whether a comma-separated header value lists `token`, in any letter case.
pub fn has_token(value: &Option<String>, token: &str) -> (r: bool)
    ensures
        r == lists_token(opt_view(*value), token@),
{
    let v = match value {
        Some(s) => s.clone(),
        None => String::new(),
    };
    let ghost vv = or_empty(opt_view(*value));
    assert(v@ == vv);
    let parts = text::split_char(v.as_str(), ',');
    let ghost pieces = text::split(vv, ',');
    let mut i: usize = 0;
    while i < parts.len()
        invariant
            0 <= i <= parts@.len(),
            text::views(parts@) == pieces,
            pieces == text::split(vv, ','),
            vv == or_empty(opt_view(*value)),
            forall|j: int| 0 <= j < i ==> !text::eq_ignore_case(text::trim(#[trigger] pieces[j]), token@),
        decreases parts.len() - i,
    {
        let t = text::trim_str(parts[i].as_str());
        proof {
            assert(pieces[i as int] == parts@[i as int]@);
        }
        if text::eq_ignore_case_str(t.as_str(), token) {
            proof {
                assert(0 <= i < text::split(vv, ',').len() && text::eq_ignore_case(
                    text::trim(text::split(vv, ',')[i as int]),
                    token@,
                ));
                assert(lists_token_in(vv, token@));
            }
            return true;
        }
        i = i + 1;
    }
    proof {
        assert(parts@.len() == pieces.len());
        if lists_token_in(vv, token@) {
            let j = choose|j: int|
                0 <= j < text::split(vv, ',').len() && text::eq_ignore_case(
                    text::trim(#[trigger] text::split(vv, ',')[j]),
                    token@,
                );
            assert(!text::eq_ignore_case(text::trim(pieces[j]), token@));
        }
    }
    false
}

/// A body decoded for display, with what was undone and what went wrong.
#[derive(Debug, Clone, PartialEq, Eq)]
pub struct DecodedPreview {
    pub bytes: Vec<u8>,
    pub transfer_decoded: bool,
    pub content_decoded: bool,
    pub warnings: Vec<String>,
}

/// The model of a decoded preview.
pub struct PreviewModel {
    pub bytes: Seq<u8>,
    pub transfer_decoded: bool,
    pub content_decoded: bool,
    pub warnings: Seq<Seq<char>>,
}

/// The content encodings in the order they are undone: the listed ones, trimmed,
/// last first.
pub open spec fn encodings_to_undo(ce: Seq<char>) -> Seq<Seq<char>> {
    let parts = text::split(ce, ',');
    Seq::new(parts.len(), |i: int| text::trim(parts[parts.len() - 1 - i]))
}

/// Undoing content encodings in turn; `identity` and empty names are skipped, and
/// the first failure stops with a warning.
pub open spec fn undo_encodings(m: PreviewModel, encs: Seq<Seq<char>>, limit: usize) -> PreviewModel
    decreases encs.len(),
{
    if encs.len() == 0 {
        m
    } else {
        let e = encs[0];
        if e.len() == 0 || text::eq_ignore_case(e, "identity"@) {
            undo_encodings(m, encs.drop_first(), limit)
        } else {
            match content_decode(m.bytes, e, limit) {
                Ok((b, t)) => undo_encodings(
                    PreviewModel {
                        bytes: b,
                        content_decoded: true,
                        warnings: if t {
                            m.warnings.push("decoded "@ + e + " body was truncated for preview"@)
                        } else {
                            m.warnings
                        },
                        ..m
                    },
                    encs.drop_first(),
                    limit,
                ),
                Err(err) => PreviewModel {
                    warnings: m.warnings.push("could not decode "@ + e + " body: "@ + err),
                    ..m
                },
            }
        }
    }
}

/// The preview after the transfer encoding: chunked encoding undone when the body
/// says so.
pub open spec fn transfer_step(body: crate::capture::model::CapturedBodyView, limit: usize) -> PreviewModel {
    let start = PreviewModel {
        bytes: body.bytes,
        transfer_decoded: false,
        content_decoded: false,
        warnings: Seq::empty(),
    };
    if lists_token(body.transfer_encoding, "chunked"@) {
        match chunked_from(body.bytes, 0, limit as nat, Seq::empty(), false) {
            Ok((b, t)) => PreviewModel {
                bytes: b,
                transfer_decoded: true,
                warnings: if t {
                    seq!["decoded chunked body was truncated for preview"@]
                } else {
                    Seq::empty()
                },
                ..start
            },
            Err(e) => PreviewModel { warnings: seq!["could not decode chunked body: "@ + e], ..start },
        }
    } else {
        start
    }
}

/// The preview of a body: chunked transfer encoding undone when the body says so,
/// then its content encodings, each keeping at most `limit` bytes.
pub open spec fn preview_of(body: crate::capture::model::CapturedBodyView, limit: usize) -> PreviewModel {
    match body.content_encoding {
        Some(ce) => undo_encodings(transfer_step(body, limit), encodings_to_undo(ce), limit),
        None => transfer_step(body, limit),
    }
}

impl View for DecodedPreview {
    type V = PreviewModel;

    open spec fn view(&self) -> PreviewModel {
        PreviewModel {
            bytes: self.bytes@,
            transfer_decoded: self.transfer_decoded,
            content_decoded: self.content_decoded,
            warnings: text::views(self.warnings@),
        }
    }
}

/// Decodes a body for display, with the default limit.
pub fn decode_body_for_preview(body: &CapturedBody) -> (r: DecodedPreview)
    ensures
        r@ == preview_of(body@, DEFAULT_PREVIEW_DECODE_LIMIT),
{
    decode_body_for_preview_with_limit(body, DEFAULT_PREVIEW_DECODE_LIMIT)
}

/// Decodes a body for display, keeping at most `max_decoded_size` bytes per step.
pub fn decode_body_for_preview_with_limit(body: &CapturedBody, max_decoded_size: usize) -> (r: DecodedPreview)
    ensures
        r@ == preview_of(body@, max_decoded_size),
{
    let mut bytes = body.bytes.clone();
    let mut transfer_decoded = false;
    let content_decoded = false;
    let mut warnings: Vec<String> = Vec::new();
    assert(bytes@ =~= body.bytes@);
    if has_token(&body.transfer_encoding, "chunked") {
        match decode_chunked(bytes.as_slice(), max_decoded_size) {
            Ok(decoded) => {
                bytes = decoded.bytes;
                transfer_decoded = true;
                if decoded.truncated {
                    warnings.push(text::to_owned("decoded chunked body was truncated for preview"));
                }
            },
            Err(error) => {
                let mut w = text::to_owned("could not decode chunked body: ");
                text::push_str(&mut w, error.as_str());
                warnings.push(w);
            },
        }
    }
    let ghost after_transfer = PreviewModel {
        bytes: bytes@,
        transfer_decoded,
        content_decoded: false,
        warnings: text::views(warnings@),
    };
    proof {
        reveal_strlit("decoded chunked body was truncated for preview");
        reveal_strlit("could not decode chunked body: ");
        let spec_step = transfer_step(body@, max_decoded_size);
        assert(after_transfer.warnings =~= spec_step.warnings);
        assert(after_transfer.bytes =~= spec_step.bytes);
        assert(after_transfer == spec_step);
    }
    let mut m = DecodedPreview { bytes, transfer_decoded, content_decoded, warnings };
    match &body.content_encoding {
        Some(ce) => {
            let parts = text::split_char(ce.as_str(), ',');
            let ghost encs = encodings_to_undo(ce@);
            let n = parts.len();
            let mut k: usize = 0;
            proof {
                assert(encs.skip(0) =~= encs);
            }
            while k < n
                invariant
                    n == parts@.len(),
                    0 <= k <= n,
                    encs == encodings_to_undo(ce@),
                    body@.content_encoding == Some(ce@),
                    after_transfer == transfer_step(body@, max_decoded_size),
                    text::views(parts@) == text::split(ce@, ','),
                    undo_encodings(after_transfer, encs, max_decoded_size) == undo_encodings(
                        m@,
                        encs.skip(k as int),
                        max_decoded_size,
                    ),
                decreases n - k,
            {
                let e = text::trim_str(parts[n - 1 - k].as_str());
                let ghost rest = encs.skip(k as int);
                proof {
                    assert(rest[0] == e@);
                    assert(rest.drop_first() =~= encs.skip(k + 1));
                }
                let empty = e.as_str().is_empty();
                if empty || text::eq_ignore_case_str(e.as_str(), "identity") {
                    k = k + 1;
                    continue;
                }
                match decode_content_encoding(m.bytes.as_slice(), e.as_str(), max_decoded_size) {
                    Ok(decoded) => {
                        let ghost before = m@;
                        m.bytes = decoded.bytes;
                        m.content_decoded = true;
                        if decoded.truncated {
                            let mut w = text::to_owned("decoded ");
                            text::push_str(&mut w, e.as_str());
                            text::push_str(&mut w, " body was truncated for preview");
                            m.warnings.push(w);
                        }
                        proof {
                            reveal_strlit("decoded ");
                            reveal_strlit(" body was truncated for preview");
                            assert(m@.warnings =~= (if decoded.truncated {
                                before.warnings.push("decoded "@ + e@ + " body was truncated for preview"@)
                            } else {
                                before.warnings
                            }));
                        }
                    },
                    Err(error) => {
                        let ghost before = m@;
                        let mut w = text::to_owned("could not decode ");
                        text::push_str(&mut w, e.as_str());
                        text::push_str(&mut w, " body: ");
                        text::push_str(&mut w, error.as_str());
                        m.warnings.push(w);
                        proof {
                            reveal_strlit("could not decode ");
                            reveal_strlit(" body: ");
                            assert(m@.warnings =~= before.warnings.push(
                                "could not decode "@ + e@ + " body: "@ + error@,
                            ));
                            assert(content_decode(before.bytes, e@, max_decoded_size) == Err::<
                                (Seq<u8>, bool),
                                Seq<char>,
                            >(error@));
                            assert(m@ == PreviewModel {
                                warnings: before.warnings.push(
                                    "could not decode "@ + e@ + " body: "@ + error@,
                                ),
                                ..before
                            });
                            assert(undo_encodings(before, rest, max_decoded_size) == m@);
                        }
                        return m;
                    },
                }
                k = k + 1;
            }
            proof {
                assert(encs.skip(n as int) =~= Seq::<Seq<char>>::empty());
            }
        },
        None => {},
    }
    m
}

} // verus!
