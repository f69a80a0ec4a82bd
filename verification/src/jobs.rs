//! The `jobs` table: one row per job, keyed by event id. CoreDB has no
//! secondary index, so every date filter is a scan.

use vstd::prelude::*;
use crate::coredb::{
    col, column, decode_double_opt, decode_text, decode_text_opt, double_opt_dec, f_i64, f_text,
    f_text_opt, keep_nonempty, missing_msg, nonempty, opt_str_view, req_i64, req_text,
    req_text_opt, text_dec, text_opt_dec, Cols, CoreDbClient, RawRow,
};
use crate::cql::{
    check_identifier, check_identifiers, first_invalid, insert_cql, insert_of, int_text,
    is_identifier, limit_of, push_limit, push_where_dates, push_where_eq, quote_text, quoted,
    rejects, select_cql, select_of, strings_of, where_dates, where_eq, RepoError,
};
use crate::domain::AggRow;
use crate::plc_state::{or_empty, or_zero, text_or_empty};
use crate::schema::{match_status_name, JobIn, MatchStatus};
use crate::text::{dec, lex_lt, push_str, str_eq, str_lt};

verus! {

/// A stored job. `confidence_bits` is the IEEE-754 bit pattern of the
/// camera's confidence, when the row has a readable one.
#[derive(Debug, Clone)]
pub struct JobRow {
    pub event_id: String,
    pub edge_id: String,
    pub plc_model_no: Option<String>,
    pub camera_model_no: Option<String>,
    pub plc_ts: Option<i64>,
    pub camera_ts: Option<i64>,
    pub confidence_bits: Option<u64>,
    pub match_status: String,
    pub work_date: String,
    pub image_ref: Option<String>,
    pub created_at: i64,
}

pub struct JobView {
    pub event_id: Seq<char>,
    pub edge_id: Seq<char>,
    pub plc_model_no: Option<Seq<char>>,
    pub camera_model_no: Option<Seq<char>>,
    pub plc_ts: Option<i64>,
    pub camera_ts: Option<i64>,
    pub confidence_bits: Option<u64>,
    pub match_status: Seq<char>,
    pub work_date: Seq<char>,
    pub image_ref: Option<Seq<char>>,
    pub created_at: i64,
}

impl View for JobRow {
    type V = JobView;

    open spec fn view(&self) -> JobView {
        JobView {
            event_id: self.event_id@,
            edge_id: self.edge_id@,
            plc_model_no: opt_str_view(self.plc_model_no),
            camera_model_no: opt_str_view(self.camera_model_no),
            plc_ts: self.plc_ts,
            camera_ts: self.camera_ts,
            confidence_bits: self.confidence_bits,
            match_status: self.match_status@,
            work_date: self.work_date@,
            image_ref: opt_str_view(self.image_ref),
            created_at: self.created_at,
        }
    }
}

pub const JOB_COLS: &'static str = "event_id, edge_id, plc_model_no, camera_model_no, plc_ts, camera_ts, confidence, match_status, work_date, image_ref, created_at";

pub open spec fn nonzero_ts(n: i64) -> Option<i64> {
    if n != 0 {
        Some(n)
    } else {
        None
    }
}

/// The confidence column must be present; a value that is not a readable
/// `Double` is taken as unknown rather than failing the row.
pub open spec fn confidence_dec(cols: Cols) -> Result<Option<u64>, Seq<char>> {
    match col(cols, "confidence"@) {
        None => Err(missing_msg("confidence"@)),
        Some(c) => Ok(
            match double_opt_dec(c) {
                Ok(b) => b,
                Err(_) => None,
            },
        ),
    }
}

/// A stored job read back: every column required; empty model numbers and
/// image references, and zero timestamps, read as unknown.
pub open spec fn job_dec(cols: Cols) -> Result<JobView, Seq<char>> {
    match f_text(cols, "event_id"@) {
        Err(e) => Err(e),
        Ok(event_id) => match f_text(cols, "edge_id"@) {
            Err(e) => Err(e),
            Ok(edge_id) => match f_text_opt(cols, "plc_model_no"@) {
                Err(e) => Err(e),
                Ok(plc) => match f_text_opt(cols, "camera_model_no"@) {
                    Err(e) => Err(e),
                    Ok(cam) => match f_i64(cols, "plc_ts"@) {
                        Err(e) => Err(e),
                        Ok(pts) => match f_i64(cols, "camera_ts"@) {
                            Err(e) => Err(e),
                            Ok(cts) => match confidence_dec(cols) {
                                Err(e) => Err(e),
                                Ok(conf) => match f_text(cols, "match_status"@) {
                                    Err(e) => Err(e),
                                    Ok(status) => match f_text(cols, "work_date"@) {
                                        Err(e) => Err(e),
                                        Ok(wd) => match f_text_opt(cols, "image_ref"@) {
                                            Err(e) => Err(e),
                                            Ok(img) => match f_i64(cols, "created_at"@) {
                                                Err(e) => Err(e),
                                                Ok(ca) => Ok(JobView {
                                                    event_id,
                                                    edge_id,
                                                    plc_model_no: nonempty(plc),
                                                    camera_model_no: nonempty(cam),
                                                    plc_ts: nonzero_ts(pts),
                                                    camera_ts: nonzero_ts(cts),
                                                    confidence_bits: conf,
                                                    match_status: status,
                                                    work_date: wd,
                                                    image_ref: nonempty(img),
                                                    created_at: ca,
                                                }),
                                            },
                                        },
                                    },
                                },
                            },
                        },
                    },
                },
            },
        },
    }
}

fn keep_nonzero(n: i64) -> (r: Option<i64>)
    ensures
        r == nonzero_ts(n),
{
    if n != 0 {
        Some(n)
    } else {
        None
    }
}

fn decode_confidence(row: &RawRow) -> (r: Result<Option<u64>, RepoError>)
    ensures
        match r {
            Ok(b) => confidence_dec(row.columns@) == Ok::<Option<u64>, Seq<char>>(b),
            Err(RepoError::Decode(m)) => confidence_dec(row.columns@) == Err::<Option<u64>, Seq<char>>(m@),
            Err(_) => false,
        },
{
    match column(row, "confidence") {
        None => {
            let mut m = String::new();
            push_str(&mut m, "column ");
            push_str(&mut m, "confidence");
            push_str(&mut m, " missing");
            Err(RepoError::Decode(m))
        },
        Some(c) => match decode_double_opt(c) {
            Ok(b) => Ok(b),
            Err(_) => Ok(None),
        },
    }
}

pub fn decode_job_row(row: &RawRow) -> (r: Result<JobRow, RepoError>)
    ensures
        match r {
            Ok(j) => job_dec(row.columns@) == Ok::<JobView, Seq<char>>(j@),
            Err(RepoError::Decode(m)) => job_dec(row.columns@) == Err::<JobView, Seq<char>>(m@),
            Err(_) => false,
        },
{
    let event_id = req_text(row, "event_id")?;
    let edge_id = req_text(row, "edge_id")?;
    let plc = req_text_opt(row, "plc_model_no")?;
    let cam = req_text_opt(row, "camera_model_no")?;
    let pts = req_i64(row, "plc_ts")?;
    let cts = req_i64(row, "camera_ts")?;
    let conf = decode_confidence(row)?;
    let match_status = req_text(row, "match_status")?;
    let work_date = req_text(row, "work_date")?;
    let img = req_text_opt(row, "image_ref")?;
    let created_at = req_i64(row, "created_at")?;
    Ok(JobRow {
        event_id,
        edge_id,
        plc_model_no: keep_nonempty(plc),
        camera_model_no: keep_nonempty(cam),
        plc_ts: keep_nonzero(pts),
        camera_ts: keep_nonzero(cts),
        confidence_bits: conf,
        match_status,
        work_date,
        image_ref: keep_nonempty(img),
        created_at,
    })
}

/// Rows decoded in order; the first row that fails decides the error.
pub open spec fn jobs_dec(rows: Seq<RawRow>) -> Result<Seq<JobView>, Seq<char>>
    decreases rows.len(),
{
    if rows.len() == 0 {
        Ok(Seq::empty())
    } else {
        match jobs_dec(rows.drop_last()) {
            Err(e) => Err(e),
            Ok(prev) => match job_dec(rows.last().columns@) {
                Err(e) => Err(e),
                Ok(j) => Ok(prev.push(j)),
            },
        }
    }
}

pub open spec fn jobs_view(v: Seq<JobRow>) -> Seq<JobView> {
    v.map_values(|j: JobRow| j@)
}

pub fn decode_job_rows(rows: &Vec<RawRow>) -> (r: Result<Vec<JobRow>, RepoError>)
    ensures
        match r {
            Ok(v) => jobs_dec(rows@) == Ok::<Seq<JobView>, Seq<char>>(jobs_view(v@)),
            Err(RepoError::Decode(m)) => jobs_dec(rows@) == Err::<Seq<JobView>, Seq<char>>(m@),
            Err(_) => false,
        },
{
    let mut out: Vec<JobRow> = Vec::new();
    let mut i: usize = 0;
    assert(rows@.take(0).len() == 0);
    assert(jobs_view(out@) =~= Seq::<JobView>::empty());
    while i < rows.len()
        invariant
            i <= rows@.len(),
            jobs_dec(rows@.take(i as int)) == Ok::<Seq<JobView>, Seq<char>>(jobs_view(out@)),
        decreases rows.len() - i,
    {
        assert(rows@.take(i + 1).drop_last() =~= rows@.take(i as int));
        let j = match decode_job_row(&rows[i]) {
            Ok(j) => j,
            Err(e) => {
                assert(rows@.take(i + 1).last() == rows@[i as int]);
                assert(jobs_dec(rows@.take(i + 1)) == Err::<Seq<JobView>, Seq<char>>(e->Decode_0@));
                proof {
                    lemma_first_error_sticks(rows@, i as int + 1);
                }
                return Err(e);
            },
        };
        let ghost before = out@;
        proof {
            assert(rows@.take(i + 1).last() == rows@[i as int]);
        }
        out.push(j);
        assert(out@.drop_last() =~= before);
        assert(jobs_view(out@) =~= jobs_view(before).push(out@.last()@));
        i = i + 1;
    }
    assert(rows@.take(rows@.len() as int) =~= rows@);
    Ok(out)
}

/// An error in a prefix is the error of the whole sequence.
proof fn lemma_first_error_sticks(rows: Seq<RawRow>, n: int)
    requires
        0 <= n <= rows.len(),
        jobs_dec(rows.take(n)) is Err,
    ensures
        jobs_dec(rows) == jobs_dec(rows.take(n)),
    decreases rows.len() - n,
{
    if n < rows.len() {
        assert(rows.take(n + 1).drop_last() =~= rows.take(n));
        lemma_first_error_sticks(rows, n + 1);
    } else {
        assert(rows.take(n) =~= rows);
    }
}


// ── aggregation rows ───────────────────────────────────────────────────────

/// A column whose absence is reported as `<name> missing`.
pub open spec fn short_missing(name: Seq<char>) -> Seq<char> {
    name + " missing"@
}

pub open spec fn g_text(cols: Cols, name: Seq<char>) -> Result<Seq<char>, Seq<char>> {
    match col(cols, name) {
        None => Err(short_missing(name)),
        Some(c) => text_dec(c),
    }
}

pub open spec fn g_text_opt(cols: Cols, name: Seq<char>) -> Result<Option<Seq<char>>, Seq<char>> {
    match col(cols, name) {
        None => Err(short_missing(name)),
        Some(c) => text_opt_dec(c),
    }
}

fn get_text(row: &RawRow, name: &str) -> (r: Result<String, RepoError>)
    ensures
        match r {
            Ok(s) => g_text(row.columns@, name@) == Ok::<Seq<char>, Seq<char>>(s@),
            Err(RepoError::Decode(m)) => g_text(row.columns@, name@) == Err::<Seq<char>, Seq<char>>(m@),
            Err(_) => false,
        },
{
    match column(row, name) {
        Some(c) => decode_text(c),
        None => {
            let mut m = String::new();
            push_str(&mut m, name);
            push_str(&mut m, " missing");
            Err(RepoError::Decode(m))
        },
    }
}

fn get_text_opt(row: &RawRow, name: &str) -> (r: Result<Option<String>, RepoError>)
    ensures
        match r {
            Ok(s) => g_text_opt(row.columns@, name@) == Ok::<Option<Seq<char>>, Seq<char>>(opt_str_view(s)),
            Err(RepoError::Decode(m)) => g_text_opt(row.columns@, name@) == Err::<Option<Seq<char>>, Seq<char>>(m@),
            Err(_) => false,
        },
{
    match column(row, name) {
        Some(c) => decode_text_opt(c),
        None => {
            let mut m = String::new();
            push_str(&mut m, name);
            push_str(&mut m, " missing");
            Err(RepoError::Decode(m))
        },
    }
}

/// The model a job is counted under: the PLC's when known, else the
/// camera's, else `(unknown)`.
pub open spec fn counted_model(plc: Option<Seq<char>>, cam: Option<Seq<char>>) -> Seq<char> {
    match nonempty(plc) {
        Some(m) => m,
        None => match nonempty(cam) {
            Some(m) => m,
            None => "(unknown)"@,
        },
    }
}

pub fn model_for_count(plc: Option<String>, cam: Option<String>) -> (r: String)
    ensures
        r@ == counted_model(opt_str_view(plc), opt_str_view(cam)),
{
    match keep_nonempty(plc) {
        Some(m) => m,
        None => match keep_nonempty(cam) {
            Some(m) => m,
            None => {
                let mut u = String::new();
                push_str(&mut u, "(unknown)");
                u
            },
        },
    }
}

pub open spec fn agg_view(a: AggRow) -> (Seq<char>, Seq<char>) {
    (a.model_no@, a.match_status@)
}

/// The slim row `aggregate` counts: model and status.
pub open spec fn agg_dec(cols: Cols) -> Result<(Seq<char>, Seq<char>), Seq<char>> {
    match g_text_opt(cols, "plc_model_no"@) {
        Err(e) => Err(e),
        Ok(plc) => match g_text_opt(cols, "camera_model_no"@) {
            Err(e) => Err(e),
            Ok(cam) => match g_text(cols, "match_status"@) {
                Err(e) => Err(e),
                Ok(st) => Ok((counted_model(plc, cam), st)),
            },
        },
    }
}

/// The same with the row's date first.
pub open spec fn dated_agg_dec(cols: Cols) -> Result<(Seq<char>, (Seq<char>, Seq<char>)), Seq<char>> {
    match g_text(cols, "work_date"@) {
        Err(e) => Err(e),
        Ok(d) => match agg_dec(cols) {
            Err(e) => Err(e),
            Ok(a) => Ok((d, a)),
        },
    }
}

pub fn decode_agg_row(row: &RawRow) -> (r: Result<AggRow, RepoError>)
    ensures
        match r {
            Ok(a) => agg_dec(row.columns@) == Ok::<(Seq<char>, Seq<char>), Seq<char>>(agg_view(a)),
            Err(RepoError::Decode(m)) => agg_dec(row.columns@) == Err::<(Seq<char>, Seq<char>), Seq<char>>(m@),
            Err(_) => false,
        },
{
    let plc = get_text_opt(row, "plc_model_no")?;
    let cam = get_text_opt(row, "camera_model_no")?;
    let status = get_text(row, "match_status")?;
    Ok(AggRow { model_no: model_for_count(plc, cam), match_status: status })
}

pub fn decode_dated_agg_row(row: &RawRow) -> (r: Result<(String, AggRow), RepoError>)
    ensures
        match r {
            Ok(p) => dated_agg_dec(row.columns@) == Ok::<(Seq<char>, (Seq<char>, Seq<char>)), Seq<char>>(
                (p.0@, agg_view(p.1))),
            Err(RepoError::Decode(m)) => dated_agg_dec(row.columns@) == Err::<(Seq<char>, (Seq<char>, Seq<char>)), Seq<char>>(m@),
            Err(_) => false,
        },
{
    let d = get_text(row, "work_date")?;
    let a = decode_agg_row(row)?;
    Ok((d, a))
}

/// The aggregation row of a stored job.
pub fn agg_row_of(r: &JobRow) -> (a: AggRow)
    ensures
        agg_view(a) == (counted_model(r@.plc_model_no, r@.camera_model_no), r@.match_status),
{
    AggRow {
        model_no: model_for_count(r.plc_model_no.clone(), r.camera_model_no.clone()),
        match_status: r.match_status.clone(),
    }
}

// ── date bounds ────────────────────────────────────────────────────────────

/// Earliest and latest date of the rows that count (not `plc_only`), in
/// string order; the first row that cannot be read decides the error.
pub open spec fn bounds_dec(rows: Seq<RawRow>) -> Result<Option<(Seq<char>, Seq<char>)>, Seq<char>>
    decreases rows.len(),
{
    if rows.len() == 0 {
        Ok(None)
    } else {
        match bounds_dec(rows.drop_last()) {
            Err(e) => Err(e),
            Ok(acc) => match g_text(rows.last().columns@, "match_status"@) {
                Err(e) => Err(e),
                Ok(st) => if st == "plc_only"@ {
                    Ok(acc)
                } else {
                    match g_text(rows.last().columns@, "work_date"@) {
                        Err(e) => Err(e),
                        Ok(d) => Ok(
                            Some(
                                match acc {
                                    None => (d, d),
                                    Some(b) => (
                                        if lex_lt(d, b.0) {
                                            d
                                        } else {
                                            b.0
                                        },
                                        if lex_lt(b.1, d) {
                                            d
                                        } else {
                                            b.1
                                        },
                                    ),
                                },
                            ),
                        ),
                    }
                },
            },
        }
    }
}

proof fn lemma_bounds_error_sticks(rows: Seq<RawRow>, n: int)
    requires
        0 <= n <= rows.len(),
        bounds_dec(rows.take(n)) is Err,
    ensures
        bounds_dec(rows) == bounds_dec(rows.take(n)),
    decreases rows.len() - n,
{
    if n < rows.len() {
        assert(rows.take(n + 1).drop_last() =~= rows.take(n));
        lemma_bounds_error_sticks(rows, n + 1);
    } else {
        assert(rows.take(n) =~= rows);
    }
}

pub open spec fn opt_pair_view(o: Option<(String, String)>) -> Option<(Seq<char>, Seq<char>)> {
    match o {
        Some(p) => Some((p.0@, p.1@)),
        None => None,
    }
}

/// First and last date that carry a counted job.
pub fn job_date_bounds(rows: &Vec<RawRow>) -> (r: Result<Option<(String, String)>, RepoError>)
    ensures
        match r {
            Ok(b) => bounds_dec(rows@) == Ok::<Option<(Seq<char>, Seq<char>)>, Seq<char>>(opt_pair_view(b)),
            Err(RepoError::Decode(m)) => bounds_dec(rows@) == Err::<Option<(Seq<char>, Seq<char>)>, Seq<char>>(m@),
            Err(_) => false,
        },
{
    let mut acc: Option<(String, String)> = None;
    let mut i: usize = 0;
    assert(rows@.take(0).len() == 0);
    while i < rows.len()
        invariant
            i <= rows@.len(),
            bounds_dec(rows@.take(i as int)) == Ok::<Option<(Seq<char>, Seq<char>)>, Seq<char>>(opt_pair_view(acc)),
        decreases rows.len() - i,
    {
        let row = &rows[i];
        proof {
            assert(rows@.take(i + 1).drop_last() =~= rows@.take(i as int));
            assert(rows@.take(i + 1).last() == rows@[i as int]);
        }
        let status = match get_text(row, "match_status") {
            Ok(s) => s,
            Err(e) => {
                proof {
                    lemma_bounds_error_sticks(rows@, i + 1);
                }
                return Err(e);
            },
        };
        if !str_eq(status.as_str(), "plc_only") {
            let d = match get_text(row, "work_date") {
                Ok(s) => s,
                Err(e) => {
                    proof {
                        lemma_bounds_error_sticks(rows@, i + 1);
                    }
                    return Err(e);
                },
            };
            acc = match acc {
                None => Some((d.clone(), d)),
                Some((lo, hi)) => {
                    let nlo = if str_lt(d.as_str(), lo.as_str()) {
                        d.clone()
                    } else {
                        lo
                    };
                    let nhi = if str_lt(hi.as_str(), d.as_str()) {
                        d
                    } else {
                        hi
                    };
                    Some((nlo, nhi))
                },
            };
        }
        i = i + 1;
    }
    assert(rows@.take(rows@.len() as int) =~= rows@);
    Ok(acc)
}


// ── statements ─────────────────────────────────────────────────────────────

pub open spec fn opt_seq(o: Option<Seq<char>>) -> Seq<Seq<char>> {
    match o {
        Some(m) => seq![m],
        None => Seq::empty(),
    }
}

/// Identifiers a new job embeds, in the order they are checked.
pub open spec fn job_in_ids(job: JobIn, work_date: Seq<char>) -> Seq<Seq<char>> {
    seq![job.event_id@, job.edge_id@] + opt_seq(opt_str_view(job.plc_model_no)) + opt_seq(
        opt_str_view(job.camera_model_no),
    ) + seq![work_date]
}

/// Column values of a job row, in `JOB_COLS` order. `confidence` is the
/// rendered double.
pub open spec fn job_values(
    event_id: Seq<char>,
    edge_id: Seq<char>,
    plc: Seq<char>,
    cam: Seq<char>,
    plc_ts: i64,
    camera_ts: i64,
    confidence: Seq<char>,
    status: MatchStatus,
    work_date: Seq<char>,
    image_ref: Seq<char>,
    created_at: i64,
) -> Seq<Seq<char>> {
    seq![
        quoted(event_id),
        quoted(edge_id),
        quoted(plc),
        quoted(cam),
        dec(plc_ts as int),
        dec(camera_ts as int),
        confidence,
        quoted(match_status_name(status)),
        quoted(work_date),
        quoted(image_ref),
        dec(created_at as int),
    ]
}

/// Identifiers a rewritten job embeds, in the order they are checked.
pub open spec fn rewrite_ids(row: JobView, plc_model_no: Seq<char>) -> Seq<Seq<char>> {
    seq![row.event_id, row.edge_id, plc_model_no, row.work_date] + opt_seq(row.camera_model_no)
}

fn push_job_values(
    vals: &mut Vec<String>,
    event_id: &str,
    edge_id: &str,
    plc: &str,
    cam: &str,
    plc_ts: i64,
    camera_ts: i64,
    confidence: &str,
    status: MatchStatus,
    work_date: &str,
    image_ref: &str,
    created_at: i64,
)
    requires
        old(vals)@.len() == 0,
    ensures
        strings_of(final(vals)@) == job_values(event_id@, edge_id@, plc@, cam@, plc_ts, camera_ts,
            confidence@, status, work_date@, image_ref@, created_at),
{
    vals.push(quote_text(event_id));
    vals.push(quote_text(edge_id));
    vals.push(quote_text(plc));
    vals.push(quote_text(cam));
    vals.push(int_text(plc_ts));
    vals.push(int_text(camera_ts));
    let mut c = String::new();
    push_str(&mut c, confidence);
    vals.push(c);
    vals.push(quote_text(status.as_str()));
    vals.push(quote_text(work_date));
    vals.push(quote_text(image_ref));
    vals.push(int_text(created_at));
    assert(strings_of(vals@) =~= job_values(event_id@, edge_id@, plc@, cam@, plc_ts, camera_ts,
        confidence@, status, work_date@, image_ref@, created_at));
}

impl<T> CoreDbClient<T> {
    /// The insert of a completed job. `work_date` is expected as YYYY-MM-DD;
    /// `confidence` is the rendered double (0.0 when the job has none).
    pub fn insert_job_cql(
        &self,
        job: &JobIn,
        work_date: &str,
        match_status: MatchStatus,
        created_at_ms: i64,
        confidence: &str,
    ) -> (r: Result<String, RepoError>)
        ensures
            match r {
                Ok(q) => first_invalid(job_in_ids(*job, work_date@)) is None && q@ == insert_of(
                    self.ks()@,
                    "jobs"@,
                    JOB_COLS@,
                    job_values(
                        job.event_id@,
                        job.edge_id@,
                        or_empty(opt_str_view(job.plc_model_no)),
                        or_empty(opt_str_view(job.camera_model_no)),
                        or_zero(job.plc_ts),
                        or_zero(job.camera_ts),
                        confidence@,
                        match_status,
                        work_date@,
                        or_empty(opt_str_view(job.image_ref)),
                        created_at_ms,
                    ),
                ),
                Err(e) => first_invalid(job_in_ids(*job, work_date@)) matches Some(b) && rejects(e, b),
            },
    {
        let mut ids: Vec<&str> = Vec::new();
        ids.push(job.event_id.as_str());
        ids.push(job.edge_id.as_str());
        if let Some(m) = &job.plc_model_no {
            ids.push(m.as_str());
        }
        if let Some(m) = &job.camera_model_no {
            ids.push(m.as_str());
        }
        ids.push(work_date);
        assert(ids@.map_values(|x: &str| x@) =~= job_in_ids(*job, work_date@));
        check_identifiers(&ids)?;
        let mut vals: Vec<String> = Vec::new();
        push_job_values(
            &mut vals,
            job.event_id.as_str(),
            job.edge_id.as_str(),
            text_or_empty(&job.plc_model_no),
            text_or_empty(&job.camera_model_no),
            match job.plc_ts {
                Some(t) => t,
                None => 0,
            },
            match job.camera_ts {
                Some(t) => t,
                None => 0,
            },
            confidence,
            match_status,
            work_date,
            text_or_empty(&job.image_ref),
            created_at_ms,
        );
        Ok(insert_cql(self.keyspace_str(), "jobs", JOB_COLS, &vals))
    }

    /// Writes a stored row back with a new PLC model and status, every other
    /// column unchanged (the same key overwrites). `confidence` is the
    /// rendered double of the row's confidence (0.0 when it has none).
    pub fn rewrite_job_match_cql(
        &self,
        row: &JobRow,
        plc_model_no: &str,
        match_status: MatchStatus,
        confidence: &str,
    ) -> (r: Result<String, RepoError>)
        ensures
            match r {
                Ok(q) => first_invalid(rewrite_ids(row@, plc_model_no@)) is None && q@ == insert_of(
                    self.ks()@,
                    "jobs"@,
                    JOB_COLS@,
                    job_values(
                        row.event_id@,
                        row.edge_id@,
                        plc_model_no@,
                        or_empty(row@.camera_model_no),
                        or_zero(row.plc_ts),
                        or_zero(row.camera_ts),
                        confidence@,
                        match_status,
                        row.work_date@,
                        or_empty(row@.image_ref),
                        row.created_at,
                    ),
                ),
                Err(e) => first_invalid(rewrite_ids(row@, plc_model_no@)) matches Some(b) && rejects(e, b),
            },
    {
        let mut ids: Vec<&str> = Vec::new();
        ids.push(row.event_id.as_str());
        ids.push(row.edge_id.as_str());
        ids.push(plc_model_no);
        ids.push(row.work_date.as_str());
        if let Some(m) = &row.camera_model_no {
            ids.push(m.as_str());
        }
        assert(ids@.map_values(|x: &str| x@) =~= rewrite_ids(row@, plc_model_no@));
        check_identifiers(&ids)?;
        let mut vals: Vec<String> = Vec::new();
        push_job_values(
            &mut vals,
            row.event_id.as_str(),
            row.edge_id.as_str(),
            plc_model_no,
            text_or_empty(&row.camera_model_no),
            match row.plc_ts {
                Some(t) => t,
                None => 0,
            },
            match row.camera_ts {
                Some(t) => t,
                None => 0,
            },
            confidence,
            match_status,
            row.work_date.as_str(),
            text_or_empty(&row.image_ref),
            row.created_at,
        );
        Ok(insert_cql(self.keyspace_str(), "jobs", JOB_COLS, &vals))
    }

    pub fn get_job_cql(&self, event_id: &str) -> (r: Result<String, RepoError>)
        ensures
            match r {
                Ok(q) => is_identifier(event_id@) && q@ == select_of(self.ks()@, "jobs"@, JOB_COLS@) + where_eq(
                    "event_id"@,
                    event_id@,
                ),
                Err(e) => !is_identifier(event_id@) && rejects(e, event_id@),
            },
    {
        check_identifier(event_id)?;
        let mut q = select_cql(self.keyspace_str(), "jobs", JOB_COLS);
        push_where_eq(&mut q, "event_id", event_id);
        Ok(q)
    }

    /// A full scan filtered by date: CoreDB has no secondary index.
    pub fn scan_jobs_for_date_cql(&self, work_date: &str, limit: u32) -> (r: Result<String, RepoError>)
        ensures
            match r {
                Ok(q) => is_identifier(work_date@) && q@ == select_of(self.ks()@, "jobs"@, JOB_COLS@)
                    + where_eq("work_date"@, work_date@) + limit_of(limit),
                Err(e) => !is_identifier(work_date@) && rejects(e, work_date@),
            },
    {
        check_identifier(work_date)?;
        let mut q = select_cql(self.keyspace_str(), "jobs", JOB_COLS);
        push_where_eq(&mut q, "work_date", work_date);
        push_limit(&mut q, limit);
        Ok(q)
    }

    /// One ranged read for a whole window: CoreDB scans the table for every
    /// statement, so one read per day would multiply the cost.
    pub fn agg_rows_for_range_cql(&self, from: &str, to: &str, limit: u32) -> (r: Result<String, RepoError>)
        ensures
            match r {
                Ok(q) => is_identifier(from@) && is_identifier(to@) && q@ == select_of(
                    self.ks()@,
                    "jobs"@,
                    "work_date, plc_model_no, camera_model_no, match_status"@,
                ) + where_dates(from@, to@) + limit_of(limit),
                Err(e) => (!is_identifier(from@) && rejects(e, from@)) || (is_identifier(from@)
                    && !is_identifier(to@) && rejects(e, to@)),
            },
    {
        check_identifier(from)?;
        check_identifier(to)?;
        let mut q = select_cql(self.keyspace_str(), "jobs", "work_date, plc_model_no, camera_model_no, match_status");
        push_where_dates(&mut q, from, to);
        push_limit(&mut q, limit);
        Ok(q)
    }

    pub fn job_date_bounds_cql(&self, limit: u32) -> (r: String)
        ensures
            r@ == select_of(self.ks()@, "jobs"@, "work_date, match_status"@) + limit_of(limit),
    {
        let mut q = select_cql(self.keyspace_str(), "jobs", "work_date, match_status");
        push_limit(&mut q, limit);
        q
    }

    pub fn agg_rows_for_date_cql(&self, work_date: &str, limit: u32) -> (r: Result<String, RepoError>)
        ensures
            match r {
                Ok(q) => is_identifier(work_date@) && q@ == select_of(
                    self.ks()@,
                    "jobs"@,
                    "plc_model_no, camera_model_no, match_status"@,
                ) + where_eq("work_date"@, work_date@) + limit_of(limit),
                Err(e) => !is_identifier(work_date@) && rejects(e, work_date@),
            },
    {
        check_identifier(work_date)?;
        let mut q = select_cql(self.keyspace_str(), "jobs", "plc_model_no, camera_model_no, match_status");
        push_where_eq(&mut q, "work_date", work_date);
        push_limit(&mut q, limit);
        Ok(q)
    }
}

} // verus!
