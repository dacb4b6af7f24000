//! Byte-level helpers: decimal lengths, the `chunked` token and chunked bodies.
use vstd::prelude::*;
use vstd::arithmetic::div_mod::{lemma_add_mod_noop, lemma_mul_mod_noop_left, lemma_mod_twice};

verus! {

/// The number of distinct `usize` values; arithmetic that wraps works modulo this.
pub open spec fn word_modulus() -> nat {
    usize::MAX as nat + 1
}

pub open spec fn is_blank(b: u8) -> bool {
    b == 0x20u8 || b == 0x09u8
}

pub open spec fn is_digit(b: u8) -> bool {
    0x30u8 <= b <= 0x39u8
}

/// Index of the first byte at or after `i` that is not a space or a tab.
pub open spec fn skip_blanks(s: Seq<u8>, i: int) -> int
    decreases s.len() - i,
{
    if 0 <= i < s.len() && is_blank(s[i]) {
        skip_blanks(s, i + 1)
    } else {
        i
    }
}

/// Index just past the run of decimal digits that starts at `i`.
pub open spec fn digit_run_end(s: Seq<u8>, i: int) -> int
    decreases s.len() - i,
{
    if 0 <= i < s.len() && is_digit(s[i]) {
        digit_run_end(s, i + 1)
    } else {
        i
    }
}

/// The number that a string of decimal digits writes, most significant first.
pub open spec fn decimal_value(s: Seq<u8>) -> nat
    decreases s.len(),
{
    if s.len() == 0 {
        0
    } else {
        decimal_value(s.drop_last()) * 10 + (s.last() - 0x30u8) as nat
    }
}

/// What a `Content-Length` value means: after leading blanks, the run of
/// digits that follows, reduced modulo the word size; nothing when no digit
/// comes first. Bytes after the digits are ignored.
pub open spec fn decimal_field(s: Seq<u8>) -> Option<usize> {
    let a = skip_blanks(s, 0);
    let b = digit_run_end(s, a);
    if b == a {
        None
    } else {
        Some((decimal_value(s.subrange(a, b)) % word_modulus()) as usize)
    }
}

proof fn lemma_wrapping_step(v: nat, acc: usize, base: nat, d: nat)
    requires
        acc as nat == v % word_modulus(),
        d < base,
        base <= 16,
    ensures
        ((((acc as nat * base) % word_modulus()) + d) % word_modulus()) == (v * base + d) % word_modulus(),
{
    let m = word_modulus();
    lemma_mul_mod_noop_left(v as int, base as int, m as int);
    lemma_add_mod_noop((v * base) as int, d as int, m as int);
    lemma_mod_twice((v * base) as int, m as int);
    lemma_add_mod_noop(((acc as nat * base) % m) as int, d as int, m as int);
    assert(d % m == d) by {
        vstd::arithmetic::div_mod::lemma_small_mod(d, m);
    }
}

/// Parses a decimal length as found in a `Content-Length` value.
///
/// Leading spaces and tabs are skipped; parsing stops at the first non-digit
/// after the digits. Values beyond `usize::MAX` wrap around.
pub fn parse_usize(buf: &[u8]) -> (r: Option<usize>)
    ensures
        r == decimal_field(buf@),
{
    let len = buf.len();
    let mut i: usize = 0;
    while i < len && (buf[i] == 0x20u8 || buf[i] == 0x09u8)
        invariant
            i <= len == buf@.len(),
            skip_blanks(buf@, 0) == skip_blanks(buf@, i as int),
        decreases len - i,
    {
        i += 1;
    }
    let start = i;
    let mut res: usize = 0;
    proof {
        assert(decimal_value(buf@.subrange(start as int, i as int)) == 0);
    }
    while i < len && 0x30u8 <= buf[i] && buf[i] <= 0x39u8
        invariant
            start <= i <= len == buf@.len(),
            start == skip_blanks(buf@, 0),
            digit_run_end(buf@, start as int) == digit_run_end(buf@, i as int),
            res as nat == decimal_value(buf@.subrange(start as int, i as int)) % word_modulus(),
        decreases len - i,
    {
        let d = (buf[i] - 0x30u8) as usize;
        proof {
            let t = buf@.subrange(start as int, i + 1);
            assert(t.drop_last() =~= buf@.subrange(start as int, i as int));
            lemma_wrapping_step(decimal_value(buf@.subrange(start as int, i as int)), res, 10, d as nat);
        }
        res = res.wrapping_mul(10).wrapping_add(d);
        i += 1;
    }
    if i == start {
        None
    } else {
        Some(res)
    }
}

/// Index of the first byte equal to `b` at or after `i`.
pub open spec fn find_byte(s: Seq<u8>, b: u8, i: int) -> Option<int>
    decreases s.len() - i,
{
    if i < 0 || i >= s.len() {
        None
    } else if s[i] == b {
        Some(i)
    } else {
        find_byte(s, b, i + 1)
    }
}

/// The value of a hexadecimal digit.
pub open spec fn hex_digit(b: u8) -> Option<nat> {
    if 0x30u8 <= b <= 0x39u8 {
        Some((b - 0x30u8) as nat)
    } else if 0x61u8 <= b <= 0x66u8 {
        Some((b - 0x61u8 + 10) as nat)
    } else if 0x41u8 <= b <= 0x46u8 {
        Some((b - 0x41u8 + 10) as nat)
    } else {
        None
    }
}

/// The number that the hexadecimal digits of `s` write, most significant
/// first; bytes that are not hex digits are passed over.
pub open spec fn hex_value(s: Seq<u8>) -> nat
    decreases s.len(),
{
    if s.len() == 0 {
        0
    } else {
        match hex_digit(s.last()) {
            Some(d) => hex_value(s.drop_last()) * 16 + d,
            None => hex_value(s.drop_last()),
        }
    }
}

/// The size that a chunk-size line (without its CRLF) announces: the hex
/// digits before any `;` extension.
pub open spec fn chunk_size(line: Seq<u8>) -> nat {
    let field = match find_byte(line, 0x3Bu8, 0) {
        Some(k) => line.take(k),
        None => line,
    };
    hex_value(field)
}

/// Index of the first `CRLF CRLF` at or after `k`, counted from its end.
pub open spec fn blank_line_end(s: Seq<u8>, k: int) -> Option<int>
    decreases s.len() - k,
{
    if k < 0 || k + 4 > s.len() {
        None
    } else if s[k] == 0x0Du8 && s[k + 1] == 0x0Au8 && s[k + 2] == 0x0Du8 && s[k + 3] == 0x0Au8 {
        Some(k + 4)
    } else {
        blank_line_end(s, k + 1)
    }
}

/// Where the trailer block that starts at `p` ends: right after a `CRLF` at
/// `p` when there are no trailers, else after the first blank line.
pub open spec fn trailer_end(s: Seq<u8>, p: int) -> Option<int> {
    if 0 <= p && p + 2 <= s.len() && s[p] == 0x0Du8 && s[p + 1] == 0x0Au8 {
        Some(p + 2)
    } else {
        blank_line_end(s, p)
    }
}

/// The span of a chunked body whose next chunk-size line starts at `pos`.
///
/// A chunk-size line must end in `CRLF` and hold at least the `CR`, and its
/// size must fit in a `usize`; a zero size ends the body with the trailer
/// block; a non-zero size needs its data in `s`, followed by `CRLF`.
/// Anything else gives `None`.
pub open spec fn chunked_span_from(s: Seq<u8>, pos: int) -> Option<int>
    decreases s.len() - pos,
{
    if pos < 0 || pos >= s.len() {
        None
    } else {
        match find_byte(s, 0x0Au8, pos) {
            None => None,
            Some(i) => {
                if i <= pos || s[i - 1] != 0x0Du8 {
                    None
                } else {
                    let size = chunk_size(s.subrange(pos, i - 1));
                    let p = i + 1;
                    if size > usize::MAX {
                        None
                    } else if size == 0 {
                        trailer_end(s, p)
                    } else if p + size + 2 > s.len() {
                        None
                    } else if s[p + size] != 0x0Du8 || s[p + size + 1] != 0x0Au8 {
                        None
                    } else {
                        chunked_span_from(s, p + size + 2)
                    }
                }
            },
        }
    }
}

/// The number of bytes that a chunked body at the start of `s` spans: chunk
/// lines, data, delimiters and the trailer block with its blank line.
pub open spec fn chunked_span(s: Seq<u8>) -> Option<int> {
    chunked_span_from(s, 0)
}

proof fn lemma_find_byte_bounds(s: Seq<u8>, b: u8, i: int)
    ensures
        find_byte(s, b, i) matches Some(k) ==> i <= k < s.len() && s[k] == b,
    decreases s.len() - i,
{
    if 0 <= i < s.len() && s[i] != b {
        lemma_find_byte_bounds(s, b, i + 1);
    }
}

proof fn lemma_blank_line_end_bounds(s: Seq<u8>, k: int)
    ensures
        blank_line_end(s, k) matches Some(e) ==> k + 4 <= e <= s.len(),
    decreases s.len() - k,
{
    if 0 <= k && k + 4 <= s.len() {
        lemma_blank_line_end_bounds(s, k + 1);
    }
}

/// A chunked body found from `pos` ends after `pos` and within `s`.
pub proof fn lemma_chunked_span_bounds(s: Seq<u8>, pos: int)
    ensures
        chunked_span_from(s, pos) matches Some(n) ==> pos < n <= s.len(),
    decreases s.len() - pos,
{
    if 0 <= pos < s.len() {
        lemma_find_byte_bounds(s, 0x0Au8, pos);
        if let Some(i) = find_byte(s, 0x0Au8, pos) {
            if i > pos && s[i - 1] == 0x0Du8 {
                let size = chunk_size(s.subrange(pos, i - 1));
                let p = i + 1;
                if size == 0 {
                    lemma_blank_line_end_bounds(s, p);
                } else if size <= usize::MAX && p + size + 2 <= s.len() {
                    lemma_chunked_span_bounds(s, p + size + 2);
                }
            }
        }
    }
}

/// The value of a hexadecimal digit; `None` for any other byte.
fn hex_digit_value(b: u8) -> (r: Option<usize>)
    ensures
        match hex_digit(b) {
            Some(d) => r == Some(d as usize),
            None => r is None,
        },
{
    if 0x30u8 <= b && b <= 0x39u8 {
        Some((b - 0x30u8) as usize)
    } else if 0x61u8 <= b && b <= 0x66u8 {
        Some((b - 0x61u8 + 10) as usize)
    } else if 0x41u8 <= b && b <= 0x46u8 {
        Some((b - 0x41u8 + 10) as usize)
    } else {
        None
    }
}

/// Reading more digits never makes a hex value smaller.
proof fn lemma_hex_value_prefix(s: Seq<u8>, a: int, b: int)
    requires
        0 <= a <= b <= s.len(),
    ensures
        hex_value(s.take(a)) <= hex_value(s.take(b)),
    decreases b - a,
{
    if a < b {
        lemma_hex_value_prefix(s, a, b - 1);
        assert(s.take(b).drop_last() =~= s.take(b - 1));
    }
}

/// Once the digits read so far overflow a `usize`, so does the whole size.
proof fn lemma_chunk_size_too_large(line: Seq<u8>, j: int)
    requires
        0 <= j < line.len(),
        line[j] != 0x3Bu8,
        find_byte(line, 0x3Bu8, 0) == find_byte(line, 0x3Bu8, j),
        hex_digit(line[j]) is Some,
        line.take(j + 1).drop_last() =~= line.take(j),
        hex_value(line.take(j)) * 16 + hex_digit(line[j])->Some_0 > usize::MAX,
    ensures
        chunk_size(line) > usize::MAX,
{
    assert(line.take(j + 1).last() == line[j]);
    assert(hex_value(line.take(j + 1)) > usize::MAX);
    lemma_find_byte_bounds(line, 0x3Bu8, j + 1);
    match find_byte(line, 0x3Bu8, 0) {
        Some(k) => {
            let field = line.take(k);
            assert(field.take(j + 1) =~= line.take(j + 1));
            lemma_hex_value_prefix(field, j + 1, k);
            assert(field.take(k) =~= field);
        },
        None => {
            lemma_hex_value_prefix(line, j + 1, line.len() as int);
            assert(line.take(line.len() as int) =~= line);
        },
    }
}

/// Returns the number of bytes that the chunked body at the start of `buf`
/// spans, including the last chunk and its trailer block; `None` when the
/// body is malformed or not yet complete.
pub fn parse_chunked_body(buf: &[u8]) -> (r: Option<usize>)
    ensures
        r matches Some(n) ==> chunked_span(buf@) == Some(n as int),
        r is None ==> chunked_span(buf@) is None,
{
    let len = buf.len();
    let mut pos: usize = 0;
    loop
        invariant
            len == buf@.len(),
            chunked_span_from(buf@, pos as int) == chunked_span(buf@),
        decreases len - pos,
    {
        if pos >= len {
            return None;
        }
        let mut i = pos;
        while i < len && buf[i] != 0x0Au8
            invariant
                pos <= i <= len == buf@.len(),
                find_byte(buf@, 0x0Au8, pos as int) == find_byte(buf@, 0x0Au8, i as int),
            decreases len - i,
        {
            i += 1;
        }
        if i >= len {
            return None;
        }
        if i <= pos || buf[i - 1] != 0x0Du8 {
            return None;
        }
        let hex_end = i - 1;
        let ghost line = buf@.subrange(pos as int, hex_end as int);
        let mut size: usize = 0;
        let mut j = pos;
        proof {
            assert(line.take(0).len() == 0);
        }
        while j < hex_end && buf[j] != 0x3Bu8
            invariant
                pos <= j <= hex_end < len == buf@.len(),
                i == hex_end + 1,
                find_byte(buf@, 0x0Au8, pos as int) == Some(i as int),
                buf@[hex_end as int] == 0x0Du8,
                chunked_span_from(buf@, pos as int) == chunked_span(buf@),
                line == buf@.subrange(pos as int, hex_end as int),
                find_byte(line, 0x3Bu8, 0) == find_byte(line, 0x3Bu8, j - pos),
                size as nat == hex_value(line.take(j - pos)),
            decreases hex_end - j,
        {
            let b = buf[j];
            proof {
                assert(line.take(j - pos + 1).drop_last() =~= line.take(j - pos));
                assert(line.take(j - pos + 1).last() == b);
            }
            if let Some(d) = hex_digit_value(b) {
                let next = match size.checked_mul(16) {
                    Some(m) => m.checked_add(d),
                    None => None,
                };
                match next {
                    Some(v) => {
                        size = v;
                    },
                    None => {
                        proof {
                            lemma_chunk_size_too_large(line, j - pos);
                        }
                        return None;
                    },
                }
            }
            j += 1;
        }
        proof {
            if j == hex_end {
                assert(line.take(j - pos) =~= line);
            }
            assert(size as nat == chunk_size(line));
        }
        let p = i + 1;
        proof {
            assert(find_byte(buf@, 0x0Au8, i as int) == Some(i as int));
            assert(chunked_span_from(buf@, pos as int) == if size == 0 {
                trailer_end(buf@, p as int)
            } else if p + size + 2 > len {
                None
            } else if buf@[p + size] != 0x0Du8 || buf@[p + size + 1] != 0x0Au8 {
                None
            } else {
                chunked_span_from(buf@, p + size + 2)
            });
        }
        if size == 0 {
            if len - p >= 2 && buf[p] == 0x0Du8 && buf[p + 1] == 0x0Au8 {
                return Some(p + 2);
            }
            let mut k = p;
            while len >= 4 && k <= len - 4
                invariant
                    p <= k,
                    p <= len == buf@.len(),
                    trailer_end(buf@, p as int) == blank_line_end(buf@, p as int),
                    trailer_end(buf@, p as int) == chunked_span(buf@),
                    blank_line_end(buf@, p as int) == blank_line_end(buf@, k as int),
                decreases len - k,
            {
                if buf[k] == 0x0Du8 && buf[k + 1] == 0x0Au8 && buf[k + 2] == 0x0Du8 && buf[k + 3] == 0x0Au8 {
                    return Some(k + 4);
                }
                k += 1;
            }
            return None;
        }
        if len - p < 2 || size > len - p - 2 {
            return None;
        }
        if buf[p + size] != 0x0Du8 || buf[p + size + 1] != 0x0Au8 {
            return None;
        }
        pos = p + size + 2;
    }
}

/// `b` with an ASCII capital letter turned into small.
pub open spec fn ascii_lower(b: u8) -> u8 {
    if 0x41u8 <= b <= 0x5Au8 {
        (b + 32) as u8
    } else {
        b
    }
}

/// Equality of two byte strings, ignoring ASCII case.
pub open spec fn eq_ignore_case(a: Seq<u8>, b: Seq<u8>) -> bool {
    a.len() == b.len() && forall|i: int| 0 <= i < a.len() ==> ascii_lower(#[trigger] a[i]) == ascii_lower(b[i])
}

pub open spec fn is_line_space(b: u8) -> bool {
    b == 0x20u8 || b == 0x09u8 || b == 0x0Du8 || b == 0x0Au8
}

/// End of `s[lo..e)` once trailing spaces, tabs, CR and LF are cut off.
pub open spec fn trim_end(s: Seq<u8>, lo: int, e: int) -> int
    decreases e - lo,
{
    if lo < e && e <= s.len() && is_line_space(s[e - 1]) {
        trim_end(s, lo, e - 1)
    } else {
        e
    }
}

/// The bytes of the token `chunked`.
pub open spec fn chunked_token() -> Seq<u8> {
    seq![0x63u8, 0x68u8, 0x75u8, 0x6Eu8, 0x6Bu8, 0x65u8, 0x64u8]
}

/// Index of the first byte at or after `i` that is not a space, tab, CR or LF.
pub open spec fn skip_line_space(s: Seq<u8>, i: int) -> int
    decreases s.len() - i,
{
    if 0 <= i < s.len() && is_line_space(s[i]) {
        skip_line_space(s, i + 1)
    } else {
        i
    }
}

/// Whether a `Transfer-Encoding` value is exactly `chunked`, in any case,
/// once spaces, tabs, CR and LF are cut from both ends.
pub open spec fn is_chunked_value(s: Seq<u8>) -> bool {
    let a = skip_line_space(s, 0);
    let e = trim_end(s, a, s.len() as int);
    eq_ignore_case(s.subrange(a, e), chunked_token())
}

/// `b` with an ASCII capital letter turned into small.
pub fn lower_byte(b: u8) -> (r: u8)
    ensures
        r == ascii_lower(b),
{
    if 0x41u8 <= b && b <= 0x5Au8 {
        b + 32
    } else {
        b
    }
}

/// Whether `buf[start..start + lit.len())` equals `lit`, ignoring ASCII case.
pub fn eq_ignore_case_at(buf: &[u8], start: usize, lit: &[u8]) -> (r: bool)
    requires
        start + lit@.len() <= buf@.len(),
    ensures
        r == eq_ignore_case(buf@.subrange(start as int, start + lit@.len()), lit@),
{
    let ghost part = buf@.subrange(start as int, start + lit@.len());
    let n = buf.len();
    let mut k: usize = 0;
    while k < lit.len()
        invariant
            n == buf@.len(),
            start + lit@.len() <= buf@.len(),
            part == buf@.subrange(start as int, start + lit@.len()),
            k <= lit@.len(),
            forall|i: int| 0 <= i < k ==> ascii_lower(#[trigger] part[i]) == ascii_lower(lit@[i]),
        decreases lit.len() - k,
    {
        if lower_byte(buf[start + k]) != lower_byte(lit[k]) {
            assert(ascii_lower(part[k as int]) != ascii_lower(lit@[k as int]));
            return false;
        }
        k += 1;
    }
    true
}

/// Whether a `Transfer-Encoding` value is the single token `chunked`, in any
/// case, with surrounding whitespace allowed.
pub fn is_chunked_slice(buf: &[u8]) -> (r: bool)
    ensures
        r == is_chunked_value(buf@),
{
    let mut start: usize = 0;
    while start < buf.len() && (buf[start] == 0x20u8 || buf[start] == 0x09u8 || buf[start] == 0x0Du8 || buf[start] == 0x0Au8)
        invariant
            start <= buf@.len(),
            skip_line_space(buf@, 0) == skip_line_space(buf@, start as int),
        decreases buf.len() - start,
    {
        start += 1;
    }
    let mut end = buf.len();
    while end > start && (buf[end - 1] == 0x20u8 || buf[end - 1] == 0x09u8 || buf[end - 1] == 0x0Du8 || buf[end - 1] == 0x0Au8)
        invariant
            start <= end <= buf@.len(),
            trim_end(buf@, start as int, buf@.len() as int) == trim_end(buf@, start as int, end as int),
        decreases end,
    {
        end -= 1;
    }
    if end - start != 7 {
        return false;
    }
    let lit: [u8; 7] = [0x63u8, 0x68u8, 0x75u8, 0x6Eu8, 0x6Bu8, 0x65u8, 0x64u8];
    let lit_s = vstd::array::array_as_slice(&lit);
    assert(lit_s@ =~= chunked_token());
    eq_ignore_case_at(buf, start, lit_s)
}

/// The header name `content-length`.
pub open spec fn content_length_token() -> Seq<u8> {
    seq![0x63u8, 0x6Fu8, 0x6Eu8, 0x74u8, 0x65u8, 0x6Eu8, 0x74u8, 0x2Du8, 0x6Cu8, 0x65u8, 0x6Eu8, 0x67u8, 0x74u8, 0x68u8]
}

/// The header name `transfer-encoding`.
pub open spec fn transfer_encoding_token() -> Seq<u8> {
    seq![0x74u8, 0x72u8, 0x61u8, 0x6Eu8, 0x73u8, 0x66u8, 0x65u8, 0x72u8, 0x2Du8, 0x65u8, 0x6Eu8, 0x63u8, 0x6Fu8, 0x64u8, 0x69u8, 0x6Eu8, 0x67u8]
}

/// Whether a header name is `Content-Length`, in any case.
pub fn is_content_length_name(name: &[u8]) -> (r: bool)
    ensures
        r == eq_ignore_case(name@, content_length_token()),
{
    if name.len() != 14 {
        return false;
    }
    let lit: [u8; 14] = [0x63u8, 0x6Fu8, 0x6Eu8, 0x74u8, 0x65u8, 0x6Eu8, 0x74u8, 0x2Du8, 0x6Cu8, 0x65u8, 0x6Eu8, 0x67u8, 0x74u8, 0x68u8];
    let lit_s = vstd::array::array_as_slice(&lit);
    assert(lit_s@ =~= content_length_token());
    assert(name@.subrange(0, 14) =~= name@);
    eq_ignore_case_at(name, 0, lit_s)
}

/// Whether a header name is `Transfer-Encoding`, in any case.
pub fn is_transfer_encoding_name(name: &[u8]) -> (r: bool)
    ensures
        r == eq_ignore_case(name@, transfer_encoding_token()),
{
    if name.len() != 17 {
        return false;
    }
    let lit: [u8; 17] = [
        0x74u8, 0x72u8, 0x61u8, 0x6Eu8, 0x73u8, 0x66u8, 0x65u8, 0x72u8, 0x2Du8, 0x65u8, 0x6Eu8, 0x63u8, 0x6Fu8, 0x64u8, 0x69u8, 0x6Eu8, 0x67u8,
    ];
    let lit_s = vstd::array::array_as_slice(&lit);
    assert(lit_s@ =~= transfer_encoding_token());
    assert(name@.subrange(0, 17) =~= name@);
    eq_ignore_case_at(name, 0, lit_s)
}

/// `s1` and `s2` both reach `l` and hold the same bytes below it.
pub open spec fn agree_below(s1: Seq<u8>, s2: Seq<u8>, l: int) -> bool {
    &&& 0 <= l <= s1.len()
    &&& l <= s2.len()
    &&& forall|i: int| 0 <= i < l ==> #[trigger] s1[i] == s2[i]
}

proof fn lemma_find_byte_agree(s1: Seq<u8>, s2: Seq<u8>, b: u8, i: int, l: int)
    requires
        agree_below(s1, s2, l),
        find_byte(s1, b, i) matches Some(k) && k < l,
    ensures
        find_byte(s2, b, i) == find_byte(s1, b, i),
    decreases s1.len() - i,
{
    lemma_find_byte_bounds(s1, b, i);
    assert(s1[i] == s2[i]);
    if s1[i] != b {
        lemma_find_byte_agree(s1, s2, b, i + 1, l);
    }
}

proof fn lemma_blank_line_end_agree(s1: Seq<u8>, s2: Seq<u8>, k: int, l: int)
    requires
        agree_below(s1, s2, l),
        blank_line_end(s1, k) matches Some(e) && e <= l,
    ensures
        blank_line_end(s2, k) == blank_line_end(s1, k),
    decreases s1.len() - k,
{
    lemma_blank_line_end_bounds(s1, k);
    assert(s1[k] == s2[k] && s1[k + 1] == s2[k + 1] && s1[k + 2] == s2[k + 2] && s1[k + 3] == s2[k + 3]);
    if !(s1[k] == 0x0Du8 && s1[k + 1] == 0x0Au8 && s1[k + 2] == 0x0Du8 && s1[k + 3] == 0x0Au8) {
        lemma_blank_line_end_agree(s1, s2, k + 1, l);
    }
}

proof fn lemma_trailer_end_agree(s1: Seq<u8>, s2: Seq<u8>, p: int, l: int)
    requires
        agree_below(s1, s2, l),
        trailer_end(s1, p) matches Some(e) && e <= l,
    ensures
        trailer_end(s2, p) == trailer_end(s1, p),
{
    if 0 <= p && p + 2 <= s1.len() && s1[p] == 0x0Du8 && s1[p + 1] == 0x0Au8 {
        assert(s1[p] == s2[p] && s1[p + 1] == s2[p + 1]);
    } else {
        lemma_blank_line_end_bounds(s1, p);
        assert(s1[p] == s2[p] && s1[p + 1] == s2[p + 1]);
        lemma_blank_line_end_agree(s1, s2, p, l);
    }
}

/// The span of a chunked body depends only on the bytes it spans: another
/// buffer that holds the same bytes up to its end frames it alike.
pub proof fn lemma_chunked_span_agree(s1: Seq<u8>, s2: Seq<u8>, pos: int, l: int)
    requires
        agree_below(s1, s2, l),
        chunked_span_from(s1, pos) matches Some(n) && n <= l,
    ensures
        chunked_span_from(s2, pos) == chunked_span_from(s1, pos),
    decreases s1.len() - pos,
{
    lemma_chunked_span_bounds(s1, pos);
    lemma_find_byte_bounds(s1, 0x0Au8, pos);
    let i = find_byte(s1, 0x0Au8, pos)->Some_0;
    let size = chunk_size(s1.subrange(pos, i - 1));
    let p = i + 1;
    if size == 0 {
        lemma_blank_line_end_bounds(s1, p);
    } else {
        lemma_chunked_span_bounds(s1, p + size + 2);
    }
    lemma_find_byte_agree(s1, s2, 0x0Au8, pos, l);
    assert(s1[i - 1] == s2[i - 1]);
    assert(s2.subrange(pos, i - 1) =~= s1.subrange(pos, i - 1));
    if size == 0 {
        lemma_trailer_end_agree(s1, s2, p, l);
    } else {
        lemma_chunked_span_agree(s1, s2, p + size + 2, l);
    }
}

} // verus!
