//! Decisions and text handling of the HTTP gateway that do not touch the
//! network: identifiers, CSV cells, query strings, API keys, recipe checks.

use vstd::prelude::*;
use vstd::utf8::{decode_utf8, valid_utf8};
use crate::cql::ident_char;
use crate::text::{chars_eq, chars_of, push_char, string_of};

verus! {

// ── identifiers ─────────────────────────────────────────────────────────

pub open spec fn sanitize_char(c: char) -> char {
    if ident_char(c) {
        c
    } else {
        '_'
    }
}

/// At most 64 characters, each kept when allowed in an identifier, else `_`.
pub open spec fn sanitized(s: Seq<char>) -> Seq<char> {
    Seq::new(if s.len() < 64 { s.len() } else { 64 }, |i: int| sanitize_char(s[i]))
}

/// Replaces characters an identifier may not hold with `_` and keeps the
/// first 64, so the result passes `check_identifier` when `s` is non-empty.
pub fn sanitize_id(s: &str) -> (r: String)
    ensures
        r@ == sanitized(s@),
{
    let cs = chars_of(s);
    let n: usize = if cs.len() < 64 { cs.len() } else { 64 };
    let mut out = String::new();
    let mut i: usize = 0;
    while i < n
        invariant
            cs@ == s@,
            n <= cs.len(),
            n == (if cs@.len() < 64 { cs@.len() } else { 64 }),
            0 <= i <= n,
            out@ =~= sanitized(s@).take(i as int),
        decreases n - i,
    {
        let c = cs[i];
        let keep = ('a' <= c && c <= 'z') || ('A' <= c && c <= 'Z') || ('0' <= c && c <= '9')
            || c == '_' || c == '-' || c == '.' || c == ':';
        if keep {
            push_char(&mut out, c);
        } else {
            push_char(&mut out, '_');
        }
        i = i + 1;
    }
    out
}

// ── CSV ─────────────────────────────────────────────────────────────────

/// Every `"` doubled.
pub open spec fn double_quotes(s: Seq<char>) -> Seq<char>
    decreases s.len(),
{
    if s.len() == 0 {
        Seq::empty()
    } else {
        double_quotes(s.drop_last()) + if s.last() == '"' {
            seq!['"', '"']
        } else {
            seq![s.last()]
        }
    }
}

pub open spec fn needs_csv_quoting(s: Seq<char>) -> bool {
    s.contains(',') || s.contains('"') || s.contains('\n')
}

/// A CSV cell: quoted, with inner quotes doubled, when it holds a comma,
/// a quote or a newline; otherwise as is.
pub open spec fn csv_cell(s: Seq<char>) -> Seq<char> {
    if needs_csv_quoting(s) {
        seq!['"'] + double_quotes(s) + seq!['"']
    } else {
        s
    }
}

pub fn csv_escape(s: &str) -> (r: String)
    ensures
        r@ == csv_cell(s@),
{
    let cs = chars_of(s);
    let mut special = false;
    let mut i: usize = 0;
    while i < cs.len()
        invariant
            cs@ == s@,
            0 <= i <= cs.len(),
            special == exists|j: int| 0 <= j < i && (cs@[j] == ',' || cs@[j] == '"' || cs@[j] == '\n'),
        decreases cs.len() - i,
    {
        let c = cs[i];
        if c == ',' || c == '"' || c == '\n' {
            special = true;
        }
        i = i + 1;
    }
    assert(special == needs_csv_quoting(s@)) by {
        if needs_csv_quoting(s@) {
            if s@.contains(',') {
                let j = choose|j: int| 0 <= j < s@.len() && s@[j] == ',';
            } else if s@.contains('"') {
                let j = choose|j: int| 0 <= j < s@.len() && s@[j] == '"';
            } else {
                let j = choose|j: int| 0 <= j < s@.len() && s@[j] == '\n';
            }
        }
        if special {
            let j = choose|j: int| 0 <= j < cs@.len() && (cs@[j] == ',' || cs@[j] == '"' || cs@[j] == '\n');
            assert(s@[j] == cs@[j]);
        }
    }
    if !special {
        return string_of(&cs);
    }
    let mut out = String::new();
    push_char(&mut out, '"');
    let mut k: usize = 0;
    while k < cs.len()
        invariant
            cs@ == s@,
            0 <= k <= cs.len(),
            out@ == seq!['"'] + double_quotes(cs@.take(k as int)),
        decreases cs.len() - k,
    {
        let c = cs[k];
        assert(cs@.take(k + 1).drop_last() =~= cs@.take(k as int));
        if c == '"' {
            push_char(&mut out, '"');
            push_char(&mut out, '"');
        } else {
            push_char(&mut out, c);
        }
        assert(out@ =~= seq!['"'] + double_quotes(cs@.take(k + 1)));
        k = k + 1;
    }
    assert(cs@.take(cs.len() as int) =~= cs@);
    push_char(&mut out, '"');
    out
}

// ── query strings ───────────────────────────────────────────────────────

/// Index of the first `c` at or after `i`, or the length when there is none.
pub open spec fn next_index(s: Seq<char>, c: char, i: int) -> int
    decreases s.len() - i,
{
    if i < 0 {
        0
    } else if i >= s.len() {
        s.len() as int
    } else if s[i] == c {
        i
    } else {
        next_index(s, c, i + 1)
    }
}

pub proof fn lemma_next_index_bound(s: Seq<char>, c: char, i: int)
    requires
        0 <= i <= s.len(),
    ensures
        i <= next_index(s, c, i) <= s.len(),
        next_index(s, c, i) < s.len() ==> s[next_index(s, c, i)] == c,
        forall|j: int| i <= j < next_index(s, c, i) ==> s[j] != c,
    decreases s.len() - i,
{
    if i < s.len() && s[i] != c {
        lemma_next_index_bound(s, c, i + 1);
    }
}

/// The raw value of the first `key=value` pair from the `&`-separated
/// segment starting at `start`; a segment without `=` has an empty value.
pub open spec fn param_from(q: Seq<char>, key: Seq<char>, start: int) -> Option<Seq<char>>
    decreases q.len() - start,
{
    if start < 0 || start > q.len() {
        None
    } else {
        let end = next_index(q, '&', start);
        let seg = q.subrange(start, end);
        let eq = next_index(seg, '=', 0);
        let k = seg.take(eq);
        let v = if eq < seg.len() {
            seg.skip(eq + 1)
        } else {
            Seq::empty()
        };
        if k == key {
            Some(v)
        } else if end >= q.len() {
            None
        } else {
            proof {
                lemma_next_index_bound(q, '&', start);
            }
            param_from(q, key, end + 1)
        }
    }
}

/// The named query parameter, percent-decoded; `None` when absent.
pub open spec fn query_param_spec(q: Seq<char>, key: Seq<char>) -> Option<Seq<char>> {
    match param_from(q, key, 0) {
        Some(v) => Some(url_decoded(v)),
        None => None,
    }
}

fn next_index_exec(s: &Vec<char>, c: char, start: usize, stop: usize) -> (r: usize)
    requires
        start <= stop <= s.len(),
    ensures
        r == next_index(s@.subrange(0, stop as int), c, start as int),
{
    let ghost t = s@.subrange(0, stop as int);
    let mut i = start;
    while i < stop && s[i] != c
        invariant
            start <= i <= stop,
            stop <= s.len(),
            t == s@.subrange(0, stop as int),
            next_index(t, c, start as int) == next_index(t, c, i as int),
        decreases stop - i,
    {
        i = i + 1;
    }
    i
}

/// The value of `key` in a query string, percent-decoded.
pub fn query_param(query: &str, key: &str) -> (r: Option<String>)
    ensures
        match r {
            Some(v) => query_param_spec(query@, key@) == Some(v@),
            None => query_param_spec(query@, key@) is None,
        },
{
    let q = chars_of(query);
    let kc = chars_of(key);
    let n = q.len();
    assert(q@.subrange(0, n as int) =~= q@);
    let mut start: usize = 0;
    loop
        invariant
            q@ == query@,
            kc@ == key@,
            n == q@.len(),
            q@.subrange(0, n as int) == q@,
            0 <= start <= n,
            param_from(q@, kc@, 0) == param_from(q@, kc@, start as int),
        decreases n - start,
    {
        let end = next_index_exec(&q, '&', start, n);
        proof { lemma_next_index_bound(q@, '&', start as int); }
        let eq = next_index_exec(&q, '=', start, end);
        let ghost seg = q@.subrange(start as int, end as int);
        proof {
            lemma_next_index_bound(q@.subrange(0, end as int), '=', start as int);
            lemma_next_index_shift(q@, '=', start as int, end as int, 0);
        }
        let mut k: Vec<char> = Vec::new();
        let mut i = start;
        while i < eq
            invariant
                start <= i <= eq,
                eq <= end <= n,
                n == q@.len(),
                k@ == q@.subrange(start as int, i as int),
            decreases eq - i,
        {
            k.push(q[i]);
            assert(k@ =~= q@.subrange(start as int, i + 1));
            i = i + 1;
        }
        assert(k@ =~= seg.take(eq - start));
        if chars_eq(&k, &kc) {
            let mut v: Vec<char> = Vec::new();
            if eq < end {
                let mut j = eq + 1;
                while j < end
                    invariant
                        eq + 1 <= j <= end,
                        end <= n,
                        n == q@.len(),
                        v@ == q@.subrange(eq + 1, j as int),
                    decreases end - j,
                {
                    v.push(q[j]);
                    assert(v@ =~= q@.subrange(eq + 1, j + 1));
                    j = j + 1;
                }
                assert(v@ =~= seg.skip(eq - start + 1));
            } else {
                assert(v@ =~= Seq::<char>::empty());
            }
            let vs = string_of(&v);
            return Some(url_decode(vs.as_str()));
        }
        if end >= n {
            return None;
        }
        start = end + 1;
    }
}

proof fn lemma_next_index_shift(s: Seq<char>, c: char, start: int, end: int, i: int)
    requires
        0 <= start <= end <= s.len(),
        0 <= i <= end - start,
    ensures
        next_index(s.subrange(start, end), c, i) + start == next_index(s.subrange(0, end), c, start + i),
    decreases end - start - i,
{
    if i < end - start && s.subrange(start, end)[i] != c {
        lemma_next_index_shift(s, c, start, end, i + 1);
    }
}

// ── percent decoding ────────────────────────────────────────────────────

pub open spec fn is_hex(b: u8) -> bool {
    (48 <= b <= 57) || (65 <= b <= 70) || (97 <= b <= 102)
}

pub open spec fn hex_val(b: u8) -> int {
    if 48 <= b <= 57 {
        b - 48
    } else if 65 <= b <= 70 {
        b - 55
    } else {
        b - 87
    }
}

/// The byte written for `%xy`. The two bytes are read as text and parsed
/// base 16 (`u8::from_str_radix`, which takes an optional leading `+`); a
/// parse failure writes nothing, and bytes that are not UTF-8 text read as
/// `"00"`, writing a zero byte.
pub open spec fn pct_byte(x: u8, y: u8) -> Seq<u8> {
    if x < 0x80 && y < 0x80 {
        if x == 43 {
            if is_hex(y) {
                seq![hex_val(y) as u8]
            } else {
                Seq::empty()
            }
        } else if is_hex(x) && is_hex(y) {
            seq![(16 * hex_val(x) + hex_val(y)) as u8]
        } else {
            Seq::empty()
        }
    } else if 0xC2 <= x <= 0xDF && 0x80 <= y <= 0xBF {
        Seq::empty()
    } else {
        seq![0u8]
    }
}

/// `+` becomes a space; `%` followed by at least two more bytes is decoded
/// from those two; anything else is copied.
pub open spec fn pct_decode(b: Seq<u8>) -> Seq<u8>
    decreases b.len(),
{
    if b.len() == 0 {
        Seq::empty()
    } else if b[0] == 43 {
        seq![32u8] + pct_decode(b.skip(1))
    } else if b[0] == 37 && b.len() > 2 {
        pct_byte(b[1], b[2]) + pct_decode(b.skip(3))
    } else {
        seq![b[0]] + pct_decode(b.skip(1))
    }
}

/// What `String::from_utf8_lossy` makes of a byte sequence.
pub uninterp spec fn utf8_lossy(bytes: Seq<u8>) -> Seq<char>;

/// `String::from_utf8_lossy` (std): decodes UTF-8, replacing each invalid
/// sequence with U+FFFD. The contract names the result; for valid UTF-8 it
/// is the decoded text, as std documents.
#[verifier::external_body]
fn from_utf8_lossy(bytes: &Vec<u8>) -> (r: String)
    ensures
        r@ == utf8_lossy(bytes@),
        valid_utf8(bytes@) ==> r@ == decode_utf8(bytes@),
{
    String::from_utf8_lossy(bytes.as_slice()).into_owned()
}

/// The text a percent-encoded value stands for.
pub open spec fn url_decoded(s: Seq<char>) -> Seq<char> {
    utf8_lossy(pct_decode(vstd::utf8::encode_utf8(s)))
}

fn hex_digit(b: u8) -> (r: Option<u8>)
    ensures
        match r {
            Some(v) => is_hex(b) && v as int == hex_val(b),
            None => !is_hex(b),
        },
{
    if 48 <= b && b <= 57 {
        Some(b - 48)
    } else if 65 <= b && b <= 70 {
        Some(b - 55)
    } else if 97 <= b && b <= 102 {
        Some(b - 87)
    } else {
        None
    }
}

fn push_pct_byte(out: &mut Vec<u8>, x: u8, y: u8)
    ensures
        final(out)@ == old(out)@ + pct_byte(x, y),
{
    if x < 0x80 && y < 0x80 {
        if x == 43 {
            if let Some(v) = hex_digit(y) {
                out.push(v);
            }
        } else {
            match (hex_digit(x), hex_digit(y)) {
                (Some(a), Some(b)) => {
                    out.push(16 * a + b);
                },
                _ => {},
            }
        }
    } else if 0xC2 <= x && x <= 0xDF && 0x80 <= y && y <= 0xBF {
    } else {
        out.push(0u8);
    }
    assert(final(out)@ =~= old(out)@ + pct_byte(x, y));
}

/// Decodes `+` and `%xy` escapes of a query-string value.
pub fn url_decode(s: &str) -> (r: String)
    ensures
        r@ == url_decoded(s@),
{
    let bytes = s.as_bytes();
    let n = bytes.len();
    let mut out: Vec<u8> = Vec::new();
    let mut i: usize = 0;
    assert(bytes@.skip(0) =~= bytes@);
    while i < n
        invariant
            n == bytes@.len(),
            0 <= i <= n,
            out@ + pct_decode(bytes@.skip(i as int)) == pct_decode(bytes@),
        decreases n - i,
    {
        let b = bytes[i];
        let ghost rest = bytes@.skip(i as int);
        let ghost before = out@;
        assert(rest[0] == b);
        if b == 43 {
            out.push(32u8);
            assert(rest.skip(1) =~= bytes@.skip(i + 1));
            assert(out@ + pct_decode(bytes@.skip(i + 1)) =~= before + pct_decode(rest));
            i = i + 1;
        } else if b == 37 && n - i > 2 {
            push_pct_byte(&mut out, bytes[i + 1], bytes[i + 2]);
            assert(rest[1] == bytes@[i + 1]);
            assert(rest[2] == bytes@[i + 2]);
            assert(rest.skip(3) =~= bytes@.skip(i + 3));
            assert(out@ + pct_decode(bytes@.skip(i + 3)) =~= before + pct_decode(rest));
            i = i + 3;
        } else {
            out.push(b);
            assert(rest.skip(1) =~= bytes@.skip(i + 1));
            assert(out@ + pct_decode(bytes@.skip(i + 1)) =~= before + pct_decode(rest));
            i = i + 1;
        }
    }
    assert(bytes@.skip(n as int) =~= Seq::<u8>::empty());
    assert(out@ + Seq::<u8>::empty() =~= out@);
    from_utf8_lossy(&out)
}

} // verus!
