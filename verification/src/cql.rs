//! CQL string helpers. CoreDB has no parameter binding, so values are
//! written into the statement text; identifiers must pass `check_identifier`.

use vstd::prelude::*;
use crate::text::{chars_of, dec, nat_digits, push_char, push_i64, push_str, push_u64};

verus! {

/// Why a CoreDB operation failed.
#[derive(Debug, Clone)]
pub enum RepoError {
    Db(String),
    Transport(String),
    Decode(String),
    InvalidIdentifier(String),
}

/// A transport-level failure, carrying the transport's message.
#[derive(Debug, Clone)]
pub struct TransportError(pub String);

impl From<TransportError> for RepoError {
    fn from(e: TransportError) -> (r: RepoError) {
        RepoError::Transport(e.0)
    }
}

impl vstd::std_specs::convert::FromSpecImpl<TransportError> for RepoError {
    open spec fn obeys_from_spec() -> bool {
        true
    }

    open spec fn from_spec(e: TransportError) -> RepoError {
        RepoError::Transport(e.0)
    }
}

/// The body of a CQL string literal: every `'` doubled.
pub open spec fn escape_quotes(s: Seq<char>) -> Seq<char>
    decreases s.len(),
{
    if s.len() == 0 {
        Seq::empty()
    } else {
        (if s[0] == '\'' {
            seq!['\'', '\'']
        } else {
            seq![s[0]]
        }) + escape_quotes(s.skip(1))
    }
}

/// `s` as a CQL string literal.
pub open spec fn quoted(s: Seq<char>) -> Seq<char> {
    seq!['\''] + escape_quotes(s) + seq!['\'']
}

proof fn lemma_escape_concat(a: Seq<char>, b: Seq<char>)
    ensures
        escape_quotes(a + b) == escape_quotes(a) + escape_quotes(b),
    decreases a.len(),
{
    if a.len() == 0 {
        assert(a + b =~= b);
    } else {
        assert((a + b).skip(1) =~= a.skip(1) + b);
        lemma_escape_concat(a.skip(1), b);
        assert(escape_quotes(a + b) =~= escape_quotes(a) + escape_quotes(b));
    }
}

proof fn lemma_escape_one(c: char)
    ensures
        escape_quotes(seq![c]) == if c == '\'' {
            seq!['\'', '\'']
        } else {
            seq![c]
        },
{
    assert(seq![c].skip(1) =~= Seq::<char>::empty());
    assert(seq![c][0] == c);
    assert(escape_quotes(Seq::<char>::empty()) =~= Seq::<char>::empty());
    assert(escape_quotes(seq![c]) =~= (if c == '\'' {
        seq!['\'', '\'']
    } else {
        seq![c]
    }) + Seq::<char>::empty());
}

/// Wraps text in single quotes, doubling any single quote inside.
pub fn quote_text(s: &str) -> (r: String)
    ensures
        r@ == quoted(s@),
{
    let cs = chars_of(s);
    let mut out = String::new();
    push_char(&mut out, '\'');
    let mut i: usize = 0;
    while i < cs.len()
        invariant
            0 <= i <= cs.len(),
            cs@ == s@,
            out@ == seq!['\''] + escape_quotes(cs@.take(i as int)),
        decreases cs.len() - i,
    {
        let c = cs[i];
        proof {
            assert(cs@.take(i + 1) =~= cs@.take(i as int) + seq![c]);
            lemma_escape_concat(cs@.take(i as int), seq![c]);
            lemma_escape_one(c);
        }
        if c == '\'' {
            push_char(&mut out, '\'');
            push_char(&mut out, '\'');
        } else {
            push_char(&mut out, c);
        }
        assert(out@ =~= seq!['\''] + escape_quotes(cs@.take(i + 1)));
        i = i + 1;
    }
    push_char(&mut out, '\'');
    assert(cs@.take(cs.len() as int) =~= cs@);
    out
}

/// Characters allowed in an identifier embedded into CQL.
pub open spec fn ident_char(c: char) -> bool {
    ('a' <= c && c <= 'z') || ('A' <= c && c <= 'Z') || ('0' <= c && c <= '9') || c == '_' || c
        == '-' || c == '.' || c == ':'
}

/// 1 to 128 characters, each alphanumeric ASCII or one of `_ - . :`. These
/// are all one byte in UTF-8, so the length bound is the byte bound.
pub open spec fn is_identifier(s: Seq<char>) -> bool {
    0 < s.len() <= 128 && forall|i: int| 0 <= i < s.len() ==> ident_char(#[trigger] s[i])
}

/// Permits only characters that cannot break out of a string literal or
/// start another statement.
pub fn check_identifier(s: &str) -> (r: Result<(), RepoError>)
    ensures
        match r {
            Ok(_) => is_identifier(s@),
            Err(RepoError::InvalidIdentifier(t)) => !is_identifier(s@) && t@ == s@,
            Err(_) => false,
        },
{
    let cs = chars_of(s);
    let mut ok = cs.len() > 0 && cs.len() <= 128;
    let mut i: usize = 0;
    while i < cs.len()
        invariant
            0 <= i <= cs.len(),
            cs@ == s@,
            ok == (0 < cs@.len() <= 128 && forall|j: int| 0 <= j < i ==> ident_char(#[trigger] cs@[j])),
        decreases cs.len() - i,
    {
        let c = cs[i];
        let allowed = ('a' <= c && c <= 'z') || ('A' <= c && c <= 'Z') || ('0' <= c && c <= '9')
            || c == '_' || c == '-' || c == '.' || c == ':';
        if !allowed {
            ok = false;
        }
        i = i + 1;
    }
    if ok {
        Ok(())
    } else {
        let mut t = String::new();
        push_str(&mut t, s);
        Err(RepoError::InvalidIdentifier(t))
    }
}

/// Reads a CQL string literal back: strips the quotes and undoes the doubling.
pub open spec fn unescape_quotes(t: Seq<char>) -> Option<Seq<char>>
    decreases t.len(),
{
    if t.len() == 0 {
        Some(Seq::empty())
    } else if t[0] == '\'' {
        if t.len() >= 2 && t[1] == '\'' {
            match unescape_quotes(t.skip(2)) {
                Some(rest) => Some(seq!['\''] + rest),
                None => None,
            }
        } else {
            None
        }
    } else {
        match unescape_quotes(t.skip(1)) {
            Some(rest) => Some(seq![t[0]] + rest),
            None => None,
        }
    }
}

pub open spec fn unquoted(q: Seq<char>) -> Option<Seq<char>> {
    if q.len() >= 2 && q[0] == '\'' && q.last() == '\'' {
        unescape_quotes(q.subrange(1, q.len() - 1))
    } else {
        None
    }
}

proof fn lemma_unescape_escape(s: Seq<char>)
    ensures
        unescape_quotes(escape_quotes(s)) == Some(s),
    decreases s.len(),
{
    if s.len() > 0 {
        lemma_unescape_escape(s.skip(1));
        let e = escape_quotes(s);
        if s[0] == '\'' {
            assert(e.skip(2) =~= escape_quotes(s.skip(1)));
        } else {
            assert(e.skip(1) =~= escape_quotes(s.skip(1)));
        }
        assert(s =~= seq![s[0]] + s.skip(1));
    }
}

/// The number of single quotes in `s`.
pub open spec fn quote_count(s: Seq<char>) -> nat
    decreases s.len(),
{
    if s.len() == 0 {
        0
    } else {
        (if s[0] == '\'' { 1nat } else { 0nat }) + quote_count(s.skip(1))
    }
}

proof fn lemma_escape_len(s: Seq<char>)
    ensures
        escape_quotes(s).len() == s.len() + quote_count(s),
    decreases s.len(),
{
    if s.len() > 0 {
        lemma_escape_len(s.skip(1));
    }
}

/// A quoted value starts and ends with a single quote, is longer than the
/// text by those two quotes and one more per quote inside, and reads back
/// as exactly the text that was quoted (every inner quote is doubled), so
/// no value can end the literal early.
pub proof fn lemma_quote_roundtrip(s: Seq<char>)
    ensures
        unquoted(quoted(s)) == Some(s),
        quoted(s).len() == s.len() + 2 + quote_count(s),
        quoted(s)[0] == '\'',
        quoted(s).last() == '\'',
{
    let q = quoted(s);
    lemma_escape_len(s);
    assert(q.subrange(1, q.len() - 1) =~= escape_quotes(s));
    lemma_unescape_escape(s);
}


// ── statement text ─────────────────────────────────────────────────────────

/// The error `check_identifier` gives for `s`.
pub open spec fn rejects(e: RepoError, s: Seq<char>) -> bool {
    e matches RepoError::InvalidIdentifier(t) && t@ == s
}

/// The first of `ids` that is not an identifier, if any.
pub open spec fn first_invalid(ids: Seq<Seq<char>>) -> Option<Seq<char>>
    decreases ids.len(),
{
    if ids.len() == 0 {
        None
    } else if !is_identifier(ids[0]) {
        Some(ids[0])
    } else {
        first_invalid(ids.drop_first())
    }
}

/// Checks each of `ids` in order and reports the first that fails.
pub fn check_identifiers(ids: &Vec<&str>) -> (r: Result<(), RepoError>)
    ensures
        match r {
            Ok(_) => first_invalid(ids@.map_values(|s: &str| s@)) is None,
            Err(e) => first_invalid(ids@.map_values(|s: &str| s@)) matches Some(b) && rejects(e, b),
        },
{
    let ghost all = ids@.map_values(|s: &str| s@);
    let mut i: usize = 0;
    assert(all.skip(0) =~= all);
    while i < ids.len()
        invariant
            i <= ids@.len(),
            all == ids@.map_values(|s: &str| s@),
            first_invalid(all) == first_invalid(all.skip(i as int)),
        decreases ids.len() - i,
    {
        assert(all.skip(i as int)[0] == ids@[i as int]@);
        assert(all.skip(i as int).drop_first() =~= all.skip(i + 1));
        check_identifier(ids[i])?;
        i = i + 1;
    }
    assert(all.skip(i as int) =~= Seq::<Seq<char>>::empty());
    Ok(())
}

/// Decimal text of an integer.
pub fn int_text(v: i64) -> (r: String)
    ensures
        r@ == dec(v as int),
{
    let mut s = String::new();
    push_i64(&mut s, v);
    assert(s@ =~= dec(v as int));
    s
}

/// Values separated by `, `.
pub open spec fn join_comma(v: Seq<Seq<char>>) -> Seq<char>
    decreases v.len(),
{
    if v.len() == 0 {
        Seq::empty()
    } else if v.len() == 1 {
        v[0]
    } else {
        join_comma(v.drop_last()) + ", "@ + v.last()
    }
}

pub open spec fn strings_of(v: Seq<String>) -> Seq<Seq<char>> {
    v.map_values(|s: String| s@)
}

/// `INSERT INTO <ks>.<table> (<cols>) VALUES (<v1>, <v2>, ...)`
pub open spec fn insert_of(ks: Seq<char>, table: Seq<char>, cols: Seq<char>, vals: Seq<Seq<char>>) -> Seq<char> {
    "INSERT INTO "@ + ks + "."@ + table + " ("@ + cols + ") VALUES ("@ + join_comma(vals) + ")"@
}

/// `SELECT <cols> FROM <ks>.<table>`
pub open spec fn select_of(ks: Seq<char>, table: Seq<char>, cols: Seq<char>) -> Seq<char> {
    "SELECT "@ + cols + " FROM "@ + ks + "."@ + table
}

/// ` WHERE <key>=<quoted value>`
pub open spec fn where_eq(key: Seq<char>, val: Seq<char>) -> Seq<char> {
    " WHERE "@ + key + "="@ + quoted(val)
}

/// ` WHERE work_date>=<from> AND work_date<=<to>`
pub open spec fn where_dates(from: Seq<char>, to: Seq<char>) -> Seq<char> {
    " WHERE work_date>="@ + quoted(from) + " AND work_date<="@ + quoted(to)
}

/// ` LIMIT <n>`
pub open spec fn limit_of(n: u32) -> Seq<char> {
    " LIMIT "@ + dec(n as int)
}

pub fn insert_cql(ks: &str, table: &str, cols: &str, vals: &Vec<String>) -> (r: String)
    ensures
        r@ == insert_of(ks@, table@, cols@, strings_of(vals@)),
{
    let mut out = String::new();
    push_str(&mut out, "INSERT INTO ");
    push_str(&mut out, ks);
    push_str(&mut out, ".");
    push_str(&mut out, table);
    push_str(&mut out, " (");
    push_str(&mut out, cols);
    push_str(&mut out, ") VALUES (");
    let ghost head = out@;
    let ghost all = strings_of(vals@);
    let mut i: usize = 0;
    while i < vals.len()
        invariant
            i <= vals@.len(),
            all == strings_of(vals@),
            out@ == head + join_comma(all.take(i as int)),
        decreases vals.len() - i,
    {
        if i > 0 {
            push_str(&mut out, ", ");
        }
        push_str(&mut out, vals[i].as_str());
        proof {
            let t = all.take(i + 1);
            assert(t.drop_last() =~= all.take(i as int));
            assert(t.last() == vals@[i as int]@);
            if i == 0 {
                assert(all.take(0) =~= Seq::<Seq<char>>::empty());
                assert(t.len() == 1);
            }
        }
        assert(out@ =~= head + join_comma(all.take(i + 1)));
        i = i + 1;
    }
    assert(all.take(vals@.len() as int) =~= all);
    push_str(&mut out, ")");
    assert(out@ =~= insert_of(ks@, table@, cols@, all));
    out
}

pub fn select_cql(ks: &str, table: &str, cols: &str) -> (r: String)
    ensures
        r@ == select_of(ks@, table@, cols@),
{
    let mut out = String::new();
    push_str(&mut out, "SELECT ");
    push_str(&mut out, cols);
    push_str(&mut out, " FROM ");
    push_str(&mut out, ks);
    push_str(&mut out, ".");
    push_str(&mut out, table);
    assert(out@ =~= select_of(ks@, table@, cols@));
    out
}

pub fn push_where_eq(out: &mut String, key: &str, val: &str)
    ensures
        final(out)@ == old(out)@ + where_eq(key@, val@),
{
    push_str(out, " WHERE ");
    push_str(out, key);
    push_str(out, "=");
    let q = quote_text(val);
    push_str(out, q.as_str());
    assert(final(out)@ =~= old(out)@ + where_eq(key@, val@));
}

pub fn push_where_dates(out: &mut String, from: &str, to: &str)
    ensures
        final(out)@ == old(out)@ + where_dates(from@, to@),
{
    push_str(out, " WHERE work_date>=");
    let f = quote_text(from);
    push_str(out, f.as_str());
    push_str(out, " AND work_date<=");
    let t = quote_text(to);
    push_str(out, t.as_str());
    assert(final(out)@ =~= old(out)@ + where_dates(from@, to@));
}

pub fn push_limit(out: &mut String, n: u32)
    ensures
        final(out)@ == old(out)@ + limit_of(n),
{
    push_str(out, " LIMIT ");
    push_u64(out, n as u64);
    assert(dec(n as int) == nat_digits(n as nat));
    assert(final(out)@ =~= old(out)@ + limit_of(n));
}


/// The text a repository error is shown with.
pub open spec fn repo_error_text(e: RepoError) -> Seq<char> {
    match e {
        RepoError::Db(s) => "coredb error: "@ + s@,
        RepoError::Transport(s) => "transport: "@ + s@,
        RepoError::Decode(s) => "decode: "@ + s@,
        RepoError::InvalidIdentifier(s) => "invalid identifier: "@ + s@,
    }
}

/// The HTTP status and message a repository error is answered with: a bad
/// identifier is the client's fault (400), the rest the database's (502).
pub open spec fn repo_error_reply_of(e: RepoError) -> (u16, Seq<char>) {
    match e {
        RepoError::InvalidIdentifier(s) => (400, "invalid identifier: "@ + s@),
        RepoError::Transport(s) => (502, "coredb transport: "@ + s@),
        RepoError::Decode(s) => (502, "coredb decode: "@ + s@),
        RepoError::Db(s) => (502, "coredb error: "@ + s@),
    }
}

fn prefixed(p: &str, s: &String) -> (r: String)
    ensures
        r@ == p@ + s@,
{
    let mut out = String::new();
    push_str(&mut out, p);
    push_str(&mut out, s.as_str());
    out
}

impl RepoError {
    pub fn message(&self) -> (r: String)
        ensures
            r@ == repo_error_text(*self),
    {
        match self {
            RepoError::Db(s) => prefixed("coredb error: ", s),
            RepoError::Transport(s) => prefixed("transport: ", s),
            RepoError::Decode(s) => prefixed("decode: ", s),
            RepoError::InvalidIdentifier(s) => prefixed("invalid identifier: ", s),
        }
    }
}

pub fn repo_error_reply(e: &RepoError) -> (r: (u16, String))
    ensures
        (r.0, r.1@) == repo_error_reply_of(*e),
{
    match e {
        RepoError::InvalidIdentifier(s) => (400, prefixed("invalid identifier: ", s)),
        RepoError::Transport(s) => (502, prefixed("coredb transport: ", s)),
        RepoError::Decode(s) => (502, prefixed("coredb decode: ", s)),
        RepoError::Db(s) => (502, prefixed("coredb error: ", s)),
    }
}

} // verus!
