//! CoreDB rows: decoding the type-tagged column values of a query result,
//! and the row shapes of the paintrobot keyspace.
//!
//! CoreDB answers `{"status":"success","data":[{"columns":{col: {Type: value}}}]}`
//! with values tagged `{"Text": ..}`, `{"Int": ..}`, `{"BigInt": ..}`,
//! `{"Double": ..}`, `{"Boolean": ..}`, `{"UUID": ..}` or `"Null"`.

use vstd::prelude::*;
use crate::cql::RepoError;
use crate::text::{chars_of, push_char, push_str, str_eq};

verus! {

/// What the decoders read of one tagged column value: the string under
/// `Text`, the integers under `BigInt` and `Int`, the IEEE-754 bit pattern of
/// the number under `Double`, whether the value is the bare string `"Null"`,
/// and the value's JSON text for error messages.
#[derive(Debug, Clone)]
pub struct Cell {
    pub text: Option<String>,
    pub big_int: Option<i64>,
    pub int: Option<i64>,
    pub double_bits: Option<u64>,
    pub is_null: bool,
    pub json: String,
}

/// One result row: column name and value, names distinct.
#[derive(Debug, Clone)]
pub struct RawRow {
    pub columns: Vec<(String, Cell)>,
}

pub type Cols = Seq<(String, Cell)>;

/// The value of the named column (first match).
pub open spec fn col(cols: Cols, name: Seq<char>) -> Option<Cell>
    decreases cols.len(),
{
    if cols.len() == 0 {
        None
    } else if cols[0].0@ == name {
        Some(cols[0].1)
    } else {
        col(cols.drop_first(), name)
    }
}

pub open spec fn missing_msg(name: Seq<char>) -> Seq<char> {
    "column "@ + name + " missing"@
}

pub open spec fn text_dec(c: Cell) -> Result<Seq<char>, Seq<char>> {
    match c.text {
        Some(t) => Ok(t@),
        None => Err("expected Text, got "@ + c.json@),
    }
}

pub open spec fn text_opt_dec(c: Cell) -> Result<Option<Seq<char>>, Seq<char>> {
    if c.is_null {
        Ok(None)
    } else {
        match text_dec(c) {
            Ok(t) => Ok(Some(t)),
            Err(e) => Err(e),
        }
    }
}

pub open spec fn i64_dec(c: Cell) -> Result<i64, Seq<char>> {
    match c.big_int {
        Some(n) => Ok(n),
        None => match c.int {
            Some(n) => Ok(n),
            None => Err("expected BigInt/Int, got "@ + c.json@),
        },
    }
}

pub open spec fn double_opt_dec(c: Cell) -> Result<Option<u64>, Seq<char>> {
    if c.is_null {
        Ok(None)
    } else {
        match c.double_bits {
            Some(b) => Ok(Some(b)),
            None => Err("expected Double, got "@ + c.json@),
        }
    }
}

/// A required text column.
pub open spec fn f_text(cols: Cols, name: Seq<char>) -> Result<Seq<char>, Seq<char>> {
    match col(cols, name) {
        None => Err(missing_msg(name)),
        Some(c) => text_dec(c),
    }
}

/// A required column holding text or `"Null"`.
pub open spec fn f_text_opt(cols: Cols, name: Seq<char>) -> Result<Option<Seq<char>>, Seq<char>> {
    match col(cols, name) {
        None => Err(missing_msg(name)),
        Some(c) => text_opt_dec(c),
    }
}

/// A required integer column.
pub open spec fn f_i64(cols: Cols, name: Seq<char>) -> Result<i64, Seq<char>> {
    match col(cols, name) {
        None => Err(missing_msg(name)),
        Some(c) => i64_dec(c),
    }
}

/// An optional integer column: absent reads as `None`.
pub open spec fn f_opt_i64(cols: Cols, name: Seq<char>) -> Result<Option<i64>, Seq<char>> {
    match col(cols, name) {
        None => Ok(None),
        Some(c) => match i64_dec(c) {
            Ok(n) => Ok(Some(n)),
            Err(e) => Err(e),
        },
    }
}

pub open spec fn opt_str_view(o: Option<String>) -> Option<Seq<char>> {
    match o {
        Some(s) => Some(s@),
        None => None,
    }
}

/// Keeps a value only when it is non-empty text.
pub open spec fn nonempty(o: Option<Seq<char>>) -> Option<Seq<char>> {
    match o {
        Some(s) => if s.len() > 0 {
            Some(s)
        } else {
            None
        },
        None => None,
    }
}

pub open spec fn positive(o: Option<i64>) -> Option<i64> {
    match o {
        Some(n) => if n > 0 {
            Some(n)
        } else {
            None
        },
        None => None,
    }
}

fn decode_error(msg: String) -> (r: RepoError)
    ensures
        r == RepoError::Decode(msg),
{
    RepoError::Decode(msg)
}

/// The value of the named column.
pub fn column<'a>(row: &'a RawRow, name: &str) -> (r: Option<&'a Cell>)
    ensures
        match r {
            Some(c) => col(row.columns@, name@) == Some(*c),
            None => col(row.columns@, name@) is None,
        },
{
    let cols = &row.columns;
    let mut i: usize = 0;
    assert(cols@.skip(0) =~= cols@);
    while i < cols.len()
        invariant
            0 <= i <= cols@.len(),
            cols@ == row.columns@,
            col(cols@, name@) == col(cols@.skip(i as int), name@),
        decreases cols.len() - i,
    {
        let entry = &cols[i];
        assert(cols@.skip(i as int)[0] == cols@[i as int]);
        if str_eq(entry.0.as_str(), name) {
            assert(col(cols@.skip(i as int), name@) == Some(entry.1));
            return Some(&entry.1);
        }
        assert(cols@.skip(i as int).drop_first() =~= cols@.skip(i + 1));
        i = i + 1;
    }
    None
}

pub(crate) fn get<'a>(row: &'a RawRow, name: &str) -> (r: Result<&'a Cell, RepoError>)
    ensures
        match r {
            Ok(c) => col(row.columns@, name@) == Some(*c),
            Err(e) => col(row.columns@, name@) is None && e == RepoError::Decode(e->Decode_0)
                && e->Decode_0@ == missing_msg(name@),
        },
{
    match column(row, name) {
        Some(c) => Ok(c),
        None => {
            let mut m = String::new();
            push_str(&mut m, "column ");
            push_str(&mut m, name);
            push_str(&mut m, " missing");
            Err(decode_error(m))
        },
    }
}

/// Text under a `Text` tag.
pub fn decode_text(v: &Cell) -> (r: Result<String, RepoError>)
    ensures
        match r {
            Ok(s) => text_dec(*v) == Ok::<Seq<char>, Seq<char>>(s@),
            Err(RepoError::Decode(m)) => text_dec(*v) == Err::<Seq<char>, Seq<char>>(m@),
            Err(_) => false,
        },
{
    match &v.text {
        Some(t) => Ok(t.clone()),
        None => {
            let mut m = String::new();
            push_str(&mut m, "expected Text, got ");
            push_str(&mut m, v.json.as_str());
            Err(RepoError::Decode(m))
        },
    }
}

/// Text, or `None` for `"Null"`.
pub fn decode_text_opt(v: &Cell) -> (r: Result<Option<String>, RepoError>)
    ensures
        match r {
            Ok(s) => text_opt_dec(*v) == Ok::<Option<Seq<char>>, Seq<char>>(opt_str_view(s)),
            Err(RepoError::Decode(m)) => text_opt_dec(*v) == Err::<Option<Seq<char>>, Seq<char>>(m@),
            Err(_) => false,
        },
{
    if v.is_null {
        return Ok(None);
    }
    match decode_text(v) {
        Ok(s) => Ok(Some(s)),
        Err(e) => Err(e),
    }
}

/// An integer under `BigInt`, else under `Int`.
pub fn decode_i64(v: &Cell) -> (r: Result<i64, RepoError>)
    ensures
        match r {
            Ok(n) => i64_dec(*v) == Ok::<i64, Seq<char>>(n),
            Err(RepoError::Decode(m)) => i64_dec(*v) == Err::<i64, Seq<char>>(m@),
            Err(_) => false,
        },
{
    if let Some(n) = v.big_int {
        return Ok(n);
    }
    if let Some(n) = v.int {
        return Ok(n);
    }
    let mut m = String::new();
    push_str(&mut m, "expected BigInt/Int, got ");
    push_str(&mut m, v.json.as_str());
    Err(RepoError::Decode(m))
}

pub open spec fn double_dec(c: Cell) -> Result<u64, Seq<char>> {
    match c.double_bits {
        Some(b) => Ok(b),
        None => Err("expected Double, got "@ + c.json@),
    }
}

/// The bit pattern of the number under a `Double` tag.
pub fn decode_double(v: &Cell) -> (r: Result<u64, RepoError>)
    ensures
        match r {
            Ok(b) => double_dec(*v) == Ok::<u64, Seq<char>>(b),
            Err(RepoError::Decode(m)) => double_dec(*v) == Err::<u64, Seq<char>>(m@),
            Err(_) => false,
        },
{
    match v.double_bits {
        Some(b) => Ok(b),
        None => {
            let mut m = String::new();
            push_str(&mut m, "expected Double, got ");
            push_str(&mut m, v.json.as_str());
            Err(RepoError::Decode(m))
        },
    }
}

/// The bit pattern of a `Double`, or `None` for `"Null"`.
pub fn decode_double_opt(v: &Cell) -> (r: Result<Option<u64>, RepoError>)
    ensures
        match r {
            Ok(b) => double_opt_dec(*v) == Ok::<Option<u64>, Seq<char>>(b),
            Err(RepoError::Decode(m)) => double_opt_dec(*v) == Err::<Option<u64>, Seq<char>>(m@),
            Err(_) => false,
        },
{
    if v.is_null {
        return Ok(None);
    }
    match v.double_bits {
        Some(b) => Ok(Some(b)),
        None => {
            let mut m = String::new();
            push_str(&mut m, "expected Double, got ");
            push_str(&mut m, v.json.as_str());
            Err(RepoError::Decode(m))
        },
    }
}

pub(crate) fn req_text(row: &RawRow, name: &str) -> (r: Result<String, RepoError>)
    ensures
        match r {
            Ok(s) => f_text(row.columns@, name@) == Ok::<Seq<char>, Seq<char>>(s@),
            Err(RepoError::Decode(m)) => f_text(row.columns@, name@) == Err::<Seq<char>, Seq<char>>(m@),
            Err(_) => false,
        },
{
    let c = get(row, name)?;
    decode_text(c)
}

pub(crate) fn req_text_opt(row: &RawRow, name: &str) -> (r: Result<Option<String>, RepoError>)
    ensures
        match r {
            Ok(s) => f_text_opt(row.columns@, name@) == Ok::<Option<Seq<char>>, Seq<char>>(opt_str_view(s)),
            Err(RepoError::Decode(m)) => f_text_opt(row.columns@, name@) == Err::<Option<Seq<char>>, Seq<char>>(m@),
            Err(_) => false,
        },
{
    let c = get(row, name)?;
    decode_text_opt(c)
}

pub(crate) fn req_i64(row: &RawRow, name: &str) -> (r: Result<i64, RepoError>)
    ensures
        match r {
            Ok(n) => f_i64(row.columns@, name@) == Ok::<i64, Seq<char>>(n),
            Err(RepoError::Decode(m)) => f_i64(row.columns@, name@) == Err::<i64, Seq<char>>(m@),
            Err(_) => false,
        },
{
    let c = get(row, name)?;
    decode_i64(c)
}

pub(crate) fn opt_i64(row: &RawRow, name: &str) -> (r: Result<Option<i64>, RepoError>)
    ensures
        match r {
            Ok(n) => f_opt_i64(row.columns@, name@) == Ok::<Option<i64>, Seq<char>>(n),
            Err(RepoError::Decode(m)) => f_opt_i64(row.columns@, name@) == Err::<Option<i64>, Seq<char>>(m@),
            Err(_) => false,
        },
{
    match column(row, name) {
        None => Ok(None),
        Some(c) => {
            let n = decode_i64(c)?;
            Ok(Some(n))
        },
    }
}

pub(crate) fn keep_nonempty(o: Option<String>) -> (r: Option<String>)
    ensures
        opt_str_view(r) == nonempty(opt_str_view(o)),
{
    match o {
        Some(s) => {
            if s.as_str().is_empty() {
                None
            } else {
                Some(s)
            }
        },
        None => None,
    }
}


// ── the client ─────────────────────────────────────────────────────────────

/// A CoreDB endpoint: the transport that carries requests, the base URL of
/// the HTTP interface and the keyspace that statements address.
pub struct CoreDbClient<T> {
    transport: T,
    base_url: String,
    pub keyspace: String,
}

/// The wasi:http transport of the gateway component; it carries no state.
#[derive(Debug, Clone, Copy)]
pub struct WasiTransport;

impl WasiTransport {
    pub fn new() -> (r: WasiTransport)
        ensures
            r == WasiTransport,
    {
        WasiTransport
    }
}

impl Default for WasiTransport {
    fn default() -> (r: WasiTransport)
        ensures
            r == WasiTransport,
    {
        WasiTransport::new()
    }
}

/// `s` without its trailing `/` characters.
pub open spec fn trim_end_slashes(s: Seq<char>) -> Seq<char>
    decreases s.len(),
{
    if s.len() > 0 && s.last() == '/' {
        trim_end_slashes(s.drop_last())
    } else {
        s
    }
}

/// The query endpoint under a base URL.
pub open spec fn query_url_of(base: Seq<char>) -> Seq<char> {
    trim_end_slashes(base) + "/query"@
}

impl<T> CoreDbClient<T> {
    pub fn new(transport: T, base_url: String, keyspace: String) -> (r: CoreDbClient<T>)
        ensures
            r.transport() == transport,
            r.base_url()@ == base_url@,
            r.ks()@ == keyspace@,
    {
        CoreDbClient { transport, base_url, keyspace }
    }

    pub closed spec fn transport(&self) -> T {
        self.transport
    }

    pub closed spec fn base_url(&self) -> String {
        self.base_url
    }

    /// The keyspace statements address.
    pub closed spec fn ks(&self) -> String {
        self.keyspace
    }

    /// The keyspace statements address.
    pub fn keyspace_str(&self) -> (r: &str)
        ensures
            r@ == self.ks()@,
    {
        self.keyspace.as_str()
    }

    /// The transport requests go through.
    pub fn transport_ref(&self) -> (r: &T)
        ensures
            *r == self.transport(),
    {
        &self.transport
    }

    /// `POST` target of every statement: the base URL without trailing
    /// slashes, then `/query`.
    pub fn query_url(&self) -> (r: String)
        ensures
            r@ == query_url_of(self.base_url()@),
    {
        let cs = chars_of(self.base_url.as_str());
        let mut n: usize = cs.len();
        assert(cs@.take(n as int) =~= cs@);
        while n > 0 && cs[n - 1] == '/'
            invariant
                n <= cs@.len(),
                trim_end_slashes(cs@) == trim_end_slashes(cs@.take(n as int)),
            decreases n,
        {
            assert(cs@.take(n as int).drop_last() =~= cs@.take(n - 1));
            n = n - 1;
        }
        let mut out = String::new();
        let mut i: usize = 0;
        while i < n
            invariant
                n <= cs@.len(),
                i <= n,
                out@ == cs@.take(i as int),
            decreases n - i,
        {
            push_char(&mut out, cs[i]);
            assert(cs@.take(i + 1) =~= cs@.take(i as int).push(cs@[i as int]));
            i = i + 1;
        }
        push_str(&mut out, "/query");
        out
    }
}

// ── request body ───────────────────────────────────────────────────────────

/// Lower-case hexadecimal digit for `d` (0..=15).
pub open spec fn hex_digit(d: int) -> char {
    if d < 10 {
        (('0' as int) + d) as char
    } else {
        (('a' as int) + d - 10) as char
    }
}

/// One character inside a JSON string literal, escaped as serde_json does:
/// `"` and `\` and the control characters below U+0020 are escaped, the
/// usual ones by their short form, the others as `\u00XX`.
pub open spec fn json_escape_char(c: char) -> Seq<char> {
    if c == '"' {
        seq!['\\', '"']
    } else if c == '\\' {
        seq!['\\', '\\']
    } else if c == '\u{8}' {
        seq!['\\', 'b']
    } else if c == '\t' {
        seq!['\\', 't']
    } else if c == '\n' {
        seq!['\\', 'n']
    } else if c == '\u{c}' {
        seq!['\\', 'f']
    } else if c == '\r' {
        seq!['\\', 'r']
    } else if (c as int) < 0x20 {
        seq!['\\', 'u', '0', '0', hex_digit((c as int) / 16), hex_digit((c as int) % 16)]
    } else {
        seq![c]
    }
}

pub open spec fn json_escape(s: Seq<char>) -> Seq<char>
    decreases s.len(),
{
    if s.len() == 0 {
        Seq::empty()
    } else {
        json_escape(s.drop_last()) + json_escape_char(s.last())
    }
}

/// `s` as a JSON string literal.
pub open spec fn json_quoted(s: Seq<char>) -> Seq<char> {
    seq!['"'] + json_escape(s) + seq!['"']
}

/// The body CoreDB's `/query` expects: `{"query":"<statement>"}`.
pub open spec fn query_body_of(cql: Seq<char>) -> Seq<char> {
    "{\"query\":"@ + json_quoted(cql) + "}"@
}

fn hex_char(d: u32) -> (c: char)
    requires
        d < 16,
    ensures
        c == hex_digit(d as int),
{
    let table = "0123456789abcdef";
    proof {
        reveal_strlit("0123456789abcdef");
    }
    let cs = chars_of(table);
    let c = cs[d as usize];
    assert(c == hex_digit(d as int)) by {
        assert(cs@ == "0123456789abcdef"@);
    }
    c
}

fn push_json_escaped(out: &mut String, c: char)
    ensures
        final(out)@ == old(out)@ + json_escape_char(c),
{
    if c == '"' {
        push_char(out, '\\');
        push_char(out, '"');
    } else if c == '\\' {
        push_char(out, '\\');
        push_char(out, '\\');
    } else if c == '\u{8}' {
        push_char(out, '\\');
        push_char(out, 'b');
    } else if c == '\t' {
        push_char(out, '\\');
        push_char(out, 't');
    } else if c == '\n' {
        push_char(out, '\\');
        push_char(out, 'n');
    } else if c == '\u{c}' {
        push_char(out, '\\');
        push_char(out, 'f');
    } else if c == '\r' {
        push_char(out, '\\');
        push_char(out, 'r');
    } else if (c as u32) < 0x20 {
        let n: u32 = c as u32;
        push_char(out, '\\');
        push_char(out, 'u');
        push_char(out, '0');
        push_char(out, '0');
        push_char(out, hex_char(n / 16));
        push_char(out, hex_char(n % 16));
    } else {
        push_char(out, c);
    }
    assert(final(out)@ =~= old(out)@ + json_escape_char(c));
}

/// JSON text of the request that runs one statement.
pub fn query_body(cql: &str) -> (r: String)
    ensures
        r@ == query_body_of(cql@),
{
    let cs = chars_of(cql);
    let mut out = String::new();
    push_str(&mut out, "{\"query\":\"");
    proof {
        reveal_strlit("{\"query\":\"");
        reveal_strlit("{\"query\":");
    }
    let ghost start = out@;
    let mut i: usize = 0;
    while i < cs.len()
        invariant
            i <= cs@.len(),
            cs@ == cql@,
            start == "{\"query\":\""@,
            out@ == start + json_escape(cs@.take(i as int)),
        decreases cs.len() - i,
    {
        push_json_escaped(&mut out, cs[i]);
        assert(cs@.take(i + 1).drop_last() =~= cs@.take(i as int));
        i = i + 1;
    }
    assert(cs@.take(cs@.len() as int) =~= cs@);
    push_str(&mut out, "\"}");
    proof {
        reveal_strlit("\"}");
        reveal_strlit("}");
    }
    assert(out@ =~= query_body_of(cql@));
    out
}

// ── response envelope ──────────────────────────────────────────────────────

pub open spec fn opt_or_empty(o: Option<String>) -> Seq<char> {
    match o {
        Some(s) => s@,
        None => Seq::empty(),
    }
}

/// What a parsed response envelope yields: the rows of a successful read
/// (none for a write), or the server's message as a database error.
pub fn envelope_rows(status: &str, message: Option<String>, data: Option<Vec<RawRow>>) -> (r: Result<Vec<RawRow>, RepoError>)
    ensures
        status@ == "success"@ ==> (r matches Ok(rows) && rows@ == match data {
            Some(d) => d@,
            None => Seq::<RawRow>::empty(),
        }),
        status@ != "success"@ ==> (r matches Err(RepoError::Db(m)) && m@ == opt_or_empty(message)),
{
    if !str_eq(status, "success") {
        let m = match message {
            Some(m) => m,
            None => String::new(),
        };
        return Err(RepoError::Db(m));
    }
    match data {
        Some(d) => Ok(d),
        None => Ok(Vec::new()),
    }
}

} // verus!
