//! Job classification, daily aggregation, PLC/camera reconciliation and
//! mixed-flow production figures.

use vstd::prelude::*;
use crate::schema::{DailyStats, JobIn, MatchStatus, ModelCount};
use chrono::{DateTime, FixedOffset};
use crate::text::{insert_sorted_distinct, lex_lt, str_eq, strictly_sorted, strings_view};

verus! {

/// The status of a job from its PLC and camera model numbers.
pub open spec fn classify_spec(plc: Option<Seq<char>>, cam: Option<Seq<char>>) -> MatchStatus {
    match (plc, cam) {
        (Some(a), Some(b)) => if a == b {
            MatchStatus::Matched
        } else {
            MatchStatus::Mismatch
        },
        (Some(_), None) => MatchStatus::PlcOnly,
        (None, Some(_)) => MatchStatus::CameraOnly,
        (None, None) => MatchStatus::Mismatch,
    }
}

pub open spec fn opt_view(o: Option<String>) -> Option<Seq<char>> {
    match o {
        Some(s) => Some(s@),
        None => None,
    }
}

/// Determines the match status from the job's PLC and camera fields.
pub fn classify(job: &JobIn) -> (r: MatchStatus)
    ensures
        r == classify_spec(opt_view(job.plc_model_no), opt_view(job.camera_model_no)),
{
    match (&job.plc_model_no, &job.camera_model_no) {
        (Some(a), Some(b)) => {
            if *a == *b {
                MatchStatus::Matched
            } else {
                MatchStatus::Mismatch
            }
        },
        (Some(_), None) => MatchStatus::PlcOnly,
        (None, Some(_)) => MatchStatus::CameraOnly,
        (None, None) => MatchStatus::Mismatch,
    }
}

/// The canonical model of a job: the PLC's, else the camera's.
pub fn canonical_model(job: &JobIn) -> (r: Option<&str>)
    ensures
        match r {
            Some(s) => Some(s@) == (if job.plc_model_no is Some {
                opt_view(job.plc_model_no)
            } else {
                opt_view(job.camera_model_no)
            }),
            None => job.plc_model_no is None && job.camera_model_no is None,
        },
{
    match &job.plc_model_no {
        Some(m) => Some(m.as_str()),
        None => match &job.camera_model_no {
            Some(m) => Some(m.as_str()),
            None => None,
        },
    }
}

// ── work date ───────────────────────────────────────────────────────────

/// Korea Standard Time, UTC+9, in seconds east of UTC.
pub const KST_OFFSET_SECS: i32 = 9 * 3600;

/// The `YYYY-MM-DD` date chrono gives for the instant `ms` (epoch
/// milliseconds) seen at a fixed offset `offset_secs` east of UTC; `None`
/// when chrono has no such instant or offset.
pub uninterp spec fn local_date(ms: i64, offset_secs: i32) -> Option<Seq<char>>;

/// `DateTime::from_timestamp_millis(ms)` viewed at
/// `FixedOffset::east_opt(offset_secs)`, written with `format("%Y-%m-%d")`.
#[verifier::external_body]
fn local_date_of(ms: i64, offset_secs: i32) -> (r: Option<String>)
    ensures
        opt_view(r) == local_date(ms, offset_secs),
{
    match (DateTime::from_timestamp_millis(ms), FixedOffset::east_opt(offset_secs)) {
        (Some(t), Some(tz)) => Some(t.with_timezone(&tz).format("%Y-%m-%d").to_string()),
        _ => None,
    }
}

/// The work date of an instant at a fixed offset, e.g. KST.
pub fn work_date(ts_ms: i64, offset_secs: i32) -> (r: Option<String>)
    ensures
        opt_view(r) == local_date(ts_ms, offset_secs),
{
    local_date_of(ts_ms, offset_secs)
}

// ── daily aggregation ───────────────────────────────────────────────────

/// Minimal row shape used by `aggregate`.
#[derive(Debug, Clone)]
pub struct AggRow {
    pub model_no: String,
    pub match_status: String,
}

/// PLC-only rows are PLC state updates, not camera-verified work, and are not counted.
pub open spec fn is_counted(r: AggRow) -> bool {
    r.match_status@ != "plc_only"@
}

pub open spec fn is_mismatch_row(r: AggRow) -> bool {
    is_counted(r) && r.match_status@ == "mismatch"@
}

pub open spec fn n_counted(rs: Seq<AggRow>, n: int) -> int
    decreases n,
{
    if n <= 0 || n > rs.len() {
        0
    } else {
        n_counted(rs, n - 1) + if is_counted(rs[n - 1]) { 1int } else { 0 }
    }
}

pub open spec fn n_mismatch(rs: Seq<AggRow>, n: int) -> int
    decreases n,
{
    if n <= 0 || n > rs.len() {
        0
    } else {
        n_mismatch(rs, n - 1) + if is_mismatch_row(rs[n - 1]) { 1int } else { 0 }
    }
}

pub open spec fn n_model(rs: Seq<AggRow>, n: int, m: Seq<char>) -> int
    decreases n,
{
    if n <= 0 || n > rs.len() {
        0
    } else {
        n_model(rs, n - 1, m) + if is_counted(rs[n - 1]) && rs[n - 1].model_no@ == m {
            1int
        } else {
            0
        }
    }
}

pub open spec fn n_model_mismatch(rs: Seq<AggRow>, n: int, m: Seq<char>) -> int
    decreases n,
{
    if n <= 0 || n > rs.len() {
        0
    } else {
        n_model_mismatch(rs, n - 1, m) + if is_mismatch_row(rs[n - 1]) && rs[n - 1].model_no@ == m {
            1int
        } else {
            0
        }
    }
}

/// Models that occur in some counted row among the first `n`.
pub open spec fn has_counted_model(rs: Seq<AggRow>, n: int, m: Seq<char>) -> bool {
    exists|i: int| 0 <= i < n && i < rs.len() && is_counted(rs[i]) && rs[i].model_no@ == m
}

pub open spec fn model_counts_view(v: Seq<ModelCount>) -> Seq<Seq<char>> {
    Seq::new(v.len(), |i: int| v[i].model_no@)
}

pub(crate) proof fn lemma_counts_bounded(rs: Seq<AggRow>, n: int, m: Seq<char>)
    requires
        0 <= n <= rs.len(),
    ensures
        0 <= n_mismatch(rs, n) <= n_counted(rs, n) <= n,
        0 <= n_model_mismatch(rs, n, m) <= n_model(rs, n, m) <= n,
        n_model(rs, n, m) > 0 <==> has_counted_model(rs, n, m),
    decreases n,
{
    if n > 0 {
        lemma_counts_bounded(rs, n - 1, m);
        if has_counted_model(rs, n, m) && !(is_counted(rs[n - 1]) && rs[n - 1].model_no@ == m) {
            let i = choose|i: int| 0 <= i < n && i < rs.len() && is_counted(rs[i]) && rs[i].model_no@ == m;
            assert(i < n - 1);
        }
    }
}

fn count_model(rows: &Vec<AggRow>, m: &String) -> (r: ModelCount)
    ensures
        r.model_no@ == m@,
        r.job_count == n_model(rows@, rows@.len() as int, m@),
        r.mismatch_count == n_model_mismatch(rows@, rows@.len() as int, m@),
{
    let mut jobs: u64 = 0;
    let mut mism: u64 = 0;
    let mut i: usize = 0;
    while i < rows.len()
        invariant
            0 <= i <= rows.len(),
            jobs == n_model(rows@, i as int, m@),
            mism == n_model_mismatch(rows@, i as int, m@),
        decreases rows.len() - i,
    {
        proof { lemma_counts_bounded(rows@, i as int, m@); }
        let r = &rows[i];
        if !str_eq(r.match_status.as_str(), "plc_only") && r.model_no == *m {
            jobs = jobs + 1;
            if str_eq(r.match_status.as_str(), "mismatch") {
                mism = mism + 1;
            }
        }
        i = i + 1;
    }
    ModelCount { model_no: m.clone(), job_count: jobs, mismatch_count: mism }
}

/// `r` is the aggregate of `jobs` for `work_date`: the counted and
/// mismatched totals, and one entry per counted model, in ascending order.
pub open spec fn is_aggregate(r: DailyStats, work_date: Seq<char>, jobs: Seq<AggRow>) -> bool {
    &&& r.work_date@ == work_date
    &&& r.total_jobs == n_counted(jobs, jobs.len() as int)
    &&& r.mismatch_jobs == n_mismatch(jobs, jobs.len() as int)
    &&& strictly_sorted(model_counts_view(r.models@))
    &&& forall|m: Seq<char>|
        model_counts_view(r.models@).contains(m) <==> has_counted_model(jobs, jobs.len() as int, m)
    &&& forall|k: int|
        0 <= k < r.models@.len() ==> (#[trigger] r.models@[k]).job_count == n_model(
            jobs,
            jobs.len() as int,
            r.models@[k].model_no@,
        ) && r.models@[k].mismatch_count == n_model_mismatch(jobs, jobs.len() as int, r.models@[k].model_no@)
}

/// Aggregates one day's rows. `plc_only` rows are left out: the dashboard
/// counts only work the camera has seen. Models come out in ascending order.
pub fn aggregate(work_date: String, jobs: Vec<AggRow>) -> (r: DailyStats)
    ensures
        is_aggregate(r, work_date@, jobs@),
        r.work_date@ == work_date@,
        r.total_jobs == n_counted(jobs@, jobs@.len() as int),
        r.mismatch_jobs == n_mismatch(jobs@, jobs@.len() as int),
        strictly_sorted(model_counts_view(r.models@)),
        forall|m: Seq<char>|
            model_counts_view(r.models@).contains(m) <==> has_counted_model(jobs@, jobs@.len() as int, m),
        forall|k: int|
            0 <= k < r.models@.len() ==> (#[trigger] r.models@[k]).job_count == n_model(
                jobs@,
                jobs@.len() as int,
                r.models@[k].model_no@,
            ) && r.models@[k].mismatch_count == n_model_mismatch(
                jobs@,
                jobs@.len() as int,
                r.models@[k].model_no@,
            ),
{
    let mut total: u64 = 0;
    let mut mismatch: u64 = 0;
    let mut names: Vec<String> = Vec::new();
    let mut i: usize = 0;
    while i < jobs.len()
        invariant
            0 <= i <= jobs.len(),
            total == n_counted(jobs@, i as int),
            mismatch == n_mismatch(jobs@, i as int),
            strictly_sorted(strings_view(names@)),
            forall|m: Seq<char>|
                strings_view(names@).contains(m) <==> has_counted_model(jobs@, i as int, m),
        decreases jobs.len() - i,
    {
        proof { lemma_counts_bounded(jobs@, i as int, Seq::empty()); }
        let row = &jobs[i];
        if !str_eq(row.match_status.as_str(), "plc_only") {
            total = total + 1;
            if str_eq(row.match_status.as_str(), "mismatch") {
                mismatch = mismatch + 1;
            }
            insert_sorted_distinct(&mut names, &row.model_no);
        }
        assert forall|m: Seq<char>|
            strings_view(names@).contains(m) <==> has_counted_model(jobs@, i + 1, m) by {
            if has_counted_model(jobs@, i + 1, m) && !has_counted_model(jobs@, i as int, m) {
                let q = choose|q: int| 0 <= q < i + 1 && q < jobs@.len() && is_counted(jobs@[q]) && jobs@[q].model_no@ == m;
                assert(q == i);
            }
            if has_counted_model(jobs@, i as int, m) {
                let q = choose|q: int| 0 <= q < i && q < jobs@.len() && is_counted(jobs@[q]) && jobs@[q].model_no@ == m;
                assert(has_counted_model(jobs@, i + 1, m));
            }
        }
        i = i + 1;
    }
    let mut models: Vec<ModelCount> = Vec::new();
    let mut k: usize = 0;
    while k < names.len()
        invariant
            0 <= k <= names.len(),
            models@.len() == k,
            model_counts_view(models@) == strings_view(names@).take(k as int),
            forall|q: int|
                0 <= q < k ==> (#[trigger] models@[q]).job_count == n_model(
                    jobs@,
                    jobs@.len() as int,
                    models@[q].model_no@,
                ) && models@[q].mismatch_count == n_model_mismatch(
                    jobs@,
                    jobs@.len() as int,
                    models@[q].model_no@,
                ),
        decreases names.len() - k,
    {
        let mc = count_model(&jobs, &names[k]);
        let ghost prev = models@;
        models.push(mc);
        assert(models@[k as int].model_no@ == strings_view(names@)[k as int]);
        assert forall|q: int| 0 <= q < k implies models@[q] == prev[q] by {}
        assert(model_counts_view(models@) =~= strings_view(names@).take(k + 1)) by {
            assert forall|q: int| 0 <= q < k implies model_counts_view(models@)[q] == strings_view(names@).take(k as int)[q] by {
                assert(model_counts_view(prev)[q] == strings_view(names@).take(k as int)[q]);
            }
        }
        k = k + 1;
    }
    assert(model_counts_view(models@) =~= strings_view(names@));
    DailyStats { work_date, total_jobs: total, mismatch_jobs: mismatch, models }
}


// ── PLC ↔ camera reconciliation ─────────────────────────────────────────
//
// The edge posts PLC state and camera readings as separate events. The camera
// sits upstream of the booth, so a car is read before the PLC switches to it;
// the delay varies with line speed and is estimated from the data each time.

/// Start of a PLC state interval.
#[derive(Debug, Clone)]
pub struct PlcState {
    pub ts_ms: i64,
    pub model_no: String,
}

/// One car read by the camera. `confident` records whether the reading's
/// confidence reached the threshold the caller judges by.
#[derive(Debug, Clone)]
pub struct CamEvent {
    pub event_id: String,
    pub ts_ms: i64,
    pub model_no: String,
    pub confident: bool,
}

/// The verdict for one camera event.
#[derive(Debug, Clone)]
pub struct Reconciled {
    pub event_id: String,
    pub plc_model_no: String,
    pub status: MatchStatus,
}

/// Matched/mismatched counts of one position bucket.
#[derive(Debug, Clone, Copy, PartialEq, Eq, Structural)]
pub struct MatchBucket {
    pub matched: u32,
    pub mismatch: u32,
}

impl Default for MatchBucket {
    fn default() -> (r: MatchBucket)
        ensures
            r == (MatchBucket { matched: 0, mismatch: 0 }),
    {
        MatchBucket { matched: 0, mismatch: 0 }
    }
}

pub open spec fn bucket_add(b: MatchBucket, ok: bool) -> MatchBucket {
    if ok {
        MatchBucket { matched: (b.matched + 1) as u32, mismatch: b.mismatch }
    } else {
        MatchBucket { matched: b.matched, mismatch: (b.mismatch + 1) as u32 }
    }
}

impl MatchBucket {
    pub fn total(&self) -> (r: u32)
        requires
            self.matched + self.mismatch <= u32::MAX,
        ensures
            r == self.matched + self.mismatch,
    {
        self.matched + self.mismatch
    }

    fn add(&mut self, ok: bool)
        requires
            ok ==> old(self).matched < u32::MAX,
            !ok ==> old(self).mismatch < u32::MAX,
        ensures
            *final(self) == bucket_add(*old(self), ok),
    {
        if ok {
            self.matched = self.matched + 1;
        } else {
            self.mismatch = self.mismatch + 1;
        }
    }
}

#[derive(Debug, Clone, Copy, PartialEq, Eq, Structural)]
pub struct ReconcileReport {
    /// Estimated delay in seconds; `None` when the estimate was refused.
    pub offset_secs: Option<i64>,
    pub matched: u32,
    pub mismatch: u32,
    /// Below the confidence threshold — not judged.
    pub skipped_low_confidence: u32,
    /// No PLC state at that moment (before start or after stop).
    pub skipped_no_plc: u32,
    pub plc_states: u32,
    pub camera_events: u32,
    /// The first car after a model change (position in the camera's own run).
    pub first_unit: MatchBucket,
    /// The 2nd and 3rd cars.
    pub early_units: MatchBucket,
    /// The 4th car on — the line has settled.
    pub steady_units: MatchBucket,
}

/// Upper bound of the delay search, seconds.
pub const MAX_LAG_SECS: i64 = 900;
/// Step of the delay search, seconds.
pub const LAG_STEP_SECS: i64 = 30;
/// Fewer camera events than this and no delay is estimated.
pub const MIN_SAMPLE: usize = 10;

pub open spec fn states_view(v: Seq<PlcState>) -> Seq<(i64, Seq<char>)> {
    Seq::new(v.len(), |i: int| (v[i].ts_ms, v[i].model_no@))
}

/// Runs of equal consecutive models among the first `n` events, each kept
/// as its first event.
pub open spec fn timeline_upto(ev: Seq<PlcState>, n: int) -> Seq<(i64, Seq<char>)>
    decreases n,
{
    if n <= 0 || n > ev.len() {
        Seq::empty()
    } else {
        let t = timeline_upto(ev, n - 1);
        if t.len() == 0 || t.last().1 != ev[n - 1].model_no@ {
            t.push((ev[n - 1].ts_ms, ev[n - 1].model_no@))
        } else {
            t
        }
    }
}

/// Compresses consecutive PLC events of the same model into one state
/// interval each (input in ascending time).
pub fn plc_timeline(events: &[PlcState]) -> (r: Vec<PlcState>)
    ensures
        states_view(r@) == timeline_upto(events@, events@.len() as int),
{
    let mut out: Vec<PlcState> = Vec::new();
    let mut i: usize = 0;
    while i < events.len()
        invariant
            0 <= i <= events@.len(),
            states_view(out@) == timeline_upto(events@, i as int),
        decreases events.len() - i,
    {
        let e = &events[i];
        let push = if out.len() == 0 {
            true
        } else {
            out[out.len() - 1].model_no != e.model_no
        };
        if push {
            let ghost prev = states_view(out@);
            out.push(PlcState { ts_ms: e.ts_ms, model_no: e.model_no.clone() });
            assert(states_view(out@) =~= prev.push((e.ts_ms, e.model_no@)));
        }
        i = i + 1;
    }
    out
}

/// Index of the first state at or after `i` that starts later than `at`
/// (`partition_point` of `ts <= at` on an ascending timeline).
pub open spec fn first_after(t: Seq<PlcState>, at: int, i: int) -> int
    decreases t.len() - i,
{
    if i < 0 {
        0
    } else if i >= t.len() {
        t.len() as int
    } else if t[i].ts_ms > at {
        i
    } else {
        first_after(t, at, i + 1)
    }
}

/// The model of the PLC state in effect at `at`, if any.
pub open spec fn model_at(t: Seq<PlcState>, at: int) -> Option<Seq<char>> {
    let k = first_after(t, at, 0);
    if k <= 0 || k > t.len() {
        None
    } else {
        Some(t[k - 1].model_no@)
    }
}

proof fn lemma_first_after_bound(t: Seq<PlcState>, at: int, i: int)
    requires
        0 <= i,
    ensures
        i <= first_after(t, at, i) <= t.len() || (i > t.len() && first_after(t, at, i) == t.len()),
    decreases t.len() - i,
{
    if i < t.len() && t[i].ts_ms <= at {
        lemma_first_after_bound(t, at, i + 1);
    }
}

fn plc_model_at(timeline: &[PlcState], at_ms: i64) -> (r: Option<&str>)
    ensures
        match r {
            Some(s) => model_at(timeline@, at_ms as int) == Some(s@),
            None => model_at(timeline@, at_ms as int) is None,
        },
{
    let mut idx: usize = 0;
    while idx < timeline.len() && timeline[idx].ts_ms <= at_ms
        invariant
            0 <= idx <= timeline@.len(),
            first_after(timeline@, at_ms as int, 0) == first_after(timeline@, at_ms as int, idx as int),
        decreases timeline.len() - idx,
    {
        idx = idx + 1;
    }
    if idx == 0 {
        None
    } else {
        Some(timeline[idx - 1].model_no.as_str())
    }
}

/// Camera events (among the first `n`) whose model equals the PLC state in
/// effect `off` seconds later.
pub open spec fn hits(t: Seq<PlcState>, cams: Seq<CamEvent>, off: int, n: int) -> int
    decreases n,
{
    if n <= 0 || n > cams.len() {
        0
    } else {
        hits(t, cams, off, n - 1) + if model_at(t, cams[n - 1].ts_ms + off * 1000) == Some(
            cams[n - 1].model_no@,
        ) {
            1int
        } else {
            0
        }
    }
}

/// The best of the candidate delays `0, 30, .., 30 j`: most hits, shortest on ties.
pub open spec fn best_upto(t: Seq<PlcState>, cams: Seq<CamEvent>, j: int) -> (int, int)
    decreases j,
{
    if j <= 0 {
        (0, hits(t, cams, 0, cams.len() as int))
    } else {
        let prev = best_upto(t, cams, j - 1);
        let h = hits(t, cams, 30 * j, cams.len() as int);
        if h > prev.1 {
            (30 * j, h)
        } else {
            prev
        }
    }
}

/// The estimated delay, or `None` with fewer than two PLC states or
/// fewer than `MIN_SAMPLE` camera events.
pub open spec fn offset_spec(t: Seq<PlcState>, cams: Seq<CamEvent>) -> Option<int> {
    if t.len() < 2 || cams.len() < 10 {
        None
    } else {
        Some(best_upto(t, cams, 30).0)
    }
}

/// Timestamps far enough from the top of `i64` that shifting by the
/// largest searched delay cannot overflow.
pub open spec fn shiftable(cams: Seq<CamEvent>) -> bool {
    forall|i: int| 0 <= i < cams.len() ==> (#[trigger] cams[i]).ts_ms <= i64::MAX - 900_000
}

proof fn lemma_hits_bounded(t: Seq<PlcState>, cams: Seq<CamEvent>, off: int, n: int)
    requires
        0 <= n <= cams.len(),
    ensures
        0 <= hits(t, cams, off, n) <= n,
    decreases n,
{
    if n > 0 {
        lemma_hits_bounded(t, cams, off, n - 1);
    }
}

fn count_hits(timeline: &[PlcState], cams: &[CamEvent], off: i64) -> (r: u32)
    requires
        0 <= off <= MAX_LAG_SECS,
        shiftable(cams@),
        cams@.len() <= u32::MAX,
    ensures
        r == hits(timeline@, cams@, off as int, cams@.len() as int),
{
    let mut n: u32 = 0;
    let mut i: usize = 0;
    while i < cams.len()
        invariant
            0 <= off <= MAX_LAG_SECS,
            shiftable(cams@),
            cams@.len() <= u32::MAX,
            0 <= i <= cams@.len(),
            n == hits(timeline@, cams@, off as int, i as int),
        decreases cams.len() - i,
    {
        proof { lemma_hits_bounded(timeline@, cams@, off as int, i as int); }
        let c = &cams[i];
        assert(c.ts_ms <= i64::MAX - 900_000);
        let hit = match plc_model_at(timeline, c.ts_ms + off * 1000) {
            Some(m) => str_eq(m, c.model_no.as_str()),
            None => false,
        };
        if hit {
            n = n + 1;
        }
        i = i + 1;
    }
    n
}

/// Finds the delay that maximises matches; on a tie the shorter one — the
/// physically nearest reading.
pub fn estimate_offset(timeline: &[PlcState], cams: &[CamEvent]) -> (r: Option<i64>)
    requires
        shiftable(cams@),
        cams@.len() <= u32::MAX,
    ensures
        match r {
            Some(o) => offset_spec(timeline@, cams@) == Some(o as int),
            None => offset_spec(timeline@, cams@) is None,
        },
{
    if timeline.len() < 2 || cams.len() < MIN_SAMPLE {
        return None;
    }
    let mut best_off: i64 = 0;
    let mut best_hits: u32 = count_hits(timeline, cams, 0);
    let mut j: i64 = 1;
    while j <= 30
        invariant
            1 <= j <= 31,
            shiftable(cams@),
            cams@.len() <= u32::MAX,
            (best_off as int, best_hits as int) == best_upto(timeline@, cams@, j - 1),
        decreases 31 - j,
    {
        let off = j * LAG_STEP_SECS;
        let h = count_hits(timeline, cams, off);
        if h > best_hits {
            best_off = off;
            best_hits = h;
        }
        j = j + 1;
    }
    Some(best_off)
}


/// Position of camera event `i` in its run of equal consecutive models (1-based).
pub open spec fn run_pos(cams: Seq<CamEvent>, i: int) -> int
    decreases i,
{
    if i <= 0 || i >= cams.len() {
        1
    } else if cams[i - 1].model_no@ == cams[i].model_no@ {
        run_pos(cams, i - 1) + 1
    } else {
        1
    }
}

/// The report before any camera event is judged.
pub open spec fn report_base(t: Seq<PlcState>, cams: Seq<CamEvent>, offset: Option<int>) -> ReconcileReport {
    ReconcileReport {
        offset_secs: match offset {
            Some(o) => Some(o as i64),
            None => None,
        },
        matched: 0,
        mismatch: 0,
        skipped_low_confidence: 0,
        skipped_no_plc: 0,
        plc_states: t.len() as u32,
        camera_events: cams.len() as u32,
        first_unit: MatchBucket { matched: 0, mismatch: 0 },
        early_units: MatchBucket { matched: 0, mismatch: 0 },
        steady_units: MatchBucket { matched: 0, mismatch: 0 },
    }
}

/// The PLC model a confident camera event is judged against, at delay `off`.
pub open spec fn judged_plc(t: Seq<PlcState>, c: CamEvent, off: int) -> Option<Seq<char>> {
    if !c.confident {
        None
    } else {
        model_at(t, c.ts_ms + off * 1000)
    }
}

/// The report after judging camera event `i`.
pub open spec fn tally_step(
    rep: ReconcileReport,
    t: Seq<PlcState>,
    cams: Seq<CamEvent>,
    off: int,
    i: int,
) -> ReconcileReport {
    let c = cams[i];
    if !c.confident {
        ReconcileReport { skipped_low_confidence: (rep.skipped_low_confidence + 1) as u32, ..rep }
    } else {
        match model_at(t, c.ts_ms + off * 1000) {
            None => ReconcileReport { skipped_no_plc: (rep.skipped_no_plc + 1) as u32, ..rep },
            Some(p) => {
                let ok = p == c.model_no@;
                let pos = run_pos(cams, i);
                let rep2 = if ok {
                    ReconcileReport { matched: (rep.matched + 1) as u32, ..rep }
                } else {
                    ReconcileReport { mismatch: (rep.mismatch + 1) as u32, ..rep }
                };
                if pos == 1 {
                    ReconcileReport { first_unit: bucket_add(rep.first_unit, ok), ..rep2 }
                } else if pos <= 3 {
                    ReconcileReport { early_units: bucket_add(rep.early_units, ok), ..rep2 }
                } else {
                    ReconcileReport { steady_units: bucket_add(rep.steady_units, ok), ..rep2 }
                }
            },
        }
    }
}

/// The report after judging the first `n` camera events at delay `off`.
pub open spec fn tally(t: Seq<PlcState>, cams: Seq<CamEvent>, off: int, n: int) -> ReconcileReport
    decreases n,
{
    if n <= 0 || n > cams.len() {
        report_base(t, cams, Some(off))
    } else {
        tally_step(tally(t, cams, off, n - 1), t, cams, off, n - 1)
    }
}

pub open spec fn reconciled_view(r: Reconciled) -> (Seq<char>, Seq<char>, MatchStatus) {
    (r.event_id@, r.plc_model_no@, r.status)
}

pub open spec fn reconciled_seq_view(v: Seq<Reconciled>) -> Seq<(Seq<char>, Seq<char>, MatchStatus)> {
    Seq::new(v.len(), |i: int| reconciled_view(v[i]))
}

/// Verdicts for the judged events among the first `n`, in camera order.
pub open spec fn verdicts(t: Seq<PlcState>, cams: Seq<CamEvent>, off: int, n: int) -> Seq<
    (Seq<char>, Seq<char>, MatchStatus),
>
    decreases n,
{
    if n <= 0 || n > cams.len() {
        Seq::empty()
    } else {
        let c = cams[n - 1];
        verdicts(t, cams, off, n - 1) + match judged_plc(t, c, off) {
            Some(p) => seq![
                (c.event_id@, p, if p == c.model_no@ {
                    MatchStatus::Matched
                } else {
                    MatchStatus::Mismatch
                }),
            ],
            None => Seq::empty(),
        }
    }
}

/// What `reconcile` returns: no verdicts when no delay could be estimated.
pub open spec fn reconcile_spec(t: Seq<PlcState>, cams: Seq<CamEvent>) -> (
    Seq<(Seq<char>, Seq<char>, MatchStatus)>,
    ReconcileReport,
) {
    match offset_spec(t, cams) {
        None => (Seq::empty(), report_base(t, cams, None)),
        Some(off) => (verdicts(t, cams, off, cams.len() as int), tally(t, cams, off, cams.len() as int)),
    }
}

pub open spec fn bucket_total(b: MatchBucket) -> int {
    b.matched + b.mismatch
}

/// Every judged or skipped event is counted once, and the position buckets
/// split exactly the judged ones.
pub proof fn lemma_tally_sums(t: Seq<PlcState>, cams: Seq<CamEvent>, off: int, n: int)
    requires
        0 <= n <= cams.len(),
        cams.len() <= u32::MAX,
    ensures
        ({
            let r = tally(t, cams, off, n);
            &&& r.matched + r.mismatch + r.skipped_low_confidence + r.skipped_no_plc == n
            &&& bucket_total(r.first_unit) + bucket_total(r.early_units) + bucket_total(r.steady_units)
                == r.matched + r.mismatch
            &&& r.offset_secs == Some(off as i64)
            &&& r.plc_states == t.len() as u32
            &&& r.camera_events == cams.len() as u32
        }),
    decreases n,
{
    if n > 0 {
        lemma_tally_sums(t, cams, off, n - 1);
    }
}

proof fn lemma_run_pos_bound(cams: Seq<CamEvent>, i: int)
    ensures
        1 <= run_pos(cams, i) <= if i < 0 { 1 } else { i + 1 },
    decreases i,
{
    if i > 0 && i < cams.len() && cams[i - 1].model_no@ == cams[i].model_no@ {
        lemma_run_pos_bound(cams, i - 1);
    }
}

/// Judges each camera event against the PLC state in effect after the
/// estimated delay. Events below the confidence threshold are not judged —
/// calling them mismatches would invent quality problems. Run positions
/// count every event, judged or not, so a skipped read does not shift the
/// cars after it.
pub fn reconcile(timeline: &[PlcState], cams: &[CamEvent]) -> (r: (Vec<Reconciled>, ReconcileReport))
    requires
        shiftable(cams@),
        cams@.len() <= u32::MAX,
        timeline@.len() <= u32::MAX,
    ensures
        reconciled_seq_view(r.0@) == reconcile_spec(timeline@, cams@).0,
        r.1 == reconcile_spec(timeline@, cams@).1,
{
    let mut report = ReconcileReport {
        offset_secs: None,
        matched: 0,
        mismatch: 0,
        skipped_low_confidence: 0,
        skipped_no_plc: 0,
        plc_states: timeline.len() as u32,
        camera_events: cams.len() as u32,
        first_unit: MatchBucket::default(),
        early_units: MatchBucket::default(),
        steady_units: MatchBucket::default(),
    };
    let offset = match estimate_offset(timeline, cams) {
        Some(o) => o,
        None => {
            let out: Vec<Reconciled> = Vec::new();
            assert(reconciled_seq_view(out@) =~= Seq::<(Seq<char>, Seq<char>, MatchStatus)>::empty());
            return (out, report);
        },
    };
    report.offset_secs = Some(offset);
    let ghost off = offset as int;
    assert(0 <= off <= 900) by {
        lemma_best_range(timeline@, cams@, 30);
    }
    // Run position over the whole order, judged or not.
    let mut pos: Vec<u32> = Vec::new();
    let mut i: usize = 0;
    while i < cams.len()
        invariant
            0 <= i <= cams@.len(),
            cams@.len() <= u32::MAX,
            pos@.len() == i,
            forall|q: int| 0 <= q < i ==> (#[trigger] pos@[q]) as int == run_pos(cams@, q),
        decreases cams.len() - i,
    {
        let same = i > 0 && cams[i - 1].model_no == cams[i].model_no;
        proof { lemma_run_pos_bound(cams@, i as int); }
        if same {
            proof { lemma_run_pos_bound(cams@, i - 1); }
            let p = pos[i - 1] + 1;
            pos.push(p);
        } else {
            pos.push(1);
        }
        i = i + 1;
    }
    let mut out: Vec<Reconciled> = Vec::new();
    let mut i: usize = 0;
    while i < cams.len()
        invariant
            0 <= i <= cams@.len(),
            cams@.len() <= u32::MAX,
            shiftable(cams@),
            0 <= off <= 900,
            offset as int == off,
            pos@.len() == cams@.len(),
            forall|q: int| 0 <= q < cams@.len() ==> (#[trigger] pos@[q]) as int == run_pos(cams@, q),
            report == tally(timeline@, cams@, off, i as int),
            reconciled_seq_view(out@) == verdicts(timeline@, cams@, off, i as int),
        decreases cams.len() - i,
    {
        proof { lemma_tally_sums(timeline@, cams@, off, i as int); }
        let c = &cams[i];
        if !c.confident {
            report.skipped_low_confidence = report.skipped_low_confidence + 1;
            i = i + 1;
            continue;
        }
        assert(c.ts_ms <= i64::MAX - 900_000);
        let plc = match plc_model_at(timeline, c.ts_ms + offset * 1000) {
            Some(p) => p,
            None => {
                report.skipped_no_plc = report.skipped_no_plc + 1;
                i = i + 1;
                continue;
            },
        };
        let ok = str_eq(plc, c.model_no.as_str());
        let p = pos[i];
        if p == 1 {
            report.first_unit.add(ok);
        } else if p <= 3 {
            report.early_units.add(ok);
        } else {
            report.steady_units.add(ok);
        }
        let status = if ok {
            report.matched = report.matched + 1;
            MatchStatus::Matched
        } else {
            report.mismatch = report.mismatch + 1;
            MatchStatus::Mismatch
        };
        let ghost prev = reconciled_seq_view(out@);
        let mut plc_s = String::new();
        crate::text::push_str(&mut plc_s, plc);
        out.push(Reconciled { event_id: c.event_id.clone(), plc_model_no: plc_s, status });
        assert(reconciled_seq_view(out@) =~= verdicts(timeline@, cams@, off, i + 1));
        i = i + 1;
    }
    (out, report)
}

/// The estimated delay is one of the searched candidates, within 0..=900 s.
pub proof fn lemma_best_range(t: Seq<PlcState>, cams: Seq<CamEvent>, j: int)
    requires
        0 <= j,
    ensures
        0 <= best_upto(t, cams, j).0 <= 30 * j,
        best_upto(t, cams, j).0 % 30 == 0,
    decreases j,
{
    if j > 0 {
        lemma_best_range(t, cams, j - 1);
    }
}


/// The chosen delay matches at least as many readings as any candidate
/// delay, and strictly more than every shorter one.
pub proof fn lemma_best_is_max(t: Seq<PlcState>, cams: Seq<CamEvent>, j: int)
    requires
        0 <= j,
    ensures
        best_upto(t, cams, j).1 == hits(t, cams, best_upto(t, cams, j).0, cams.len() as int),
        forall|k: int| 0 <= k <= j ==> #[trigger] hits(t, cams, 30 * k, cams.len() as int) <= best_upto(t, cams, j).1,
        forall|k: int| 0 <= k <= j && 30 * k < best_upto(t, cams, j).0 ==> #[trigger] hits(t, cams, 30 * k, cams.len() as int)
            < best_upto(t, cams, j).1,
    decreases j,
{
    if j > 0 {
        lemma_best_is_max(t, cams, j - 1);
        lemma_best_range(t, cams, j - 1);
    } else {
        assert(hits(t, cams, 30 * 0int, cams.len() as int) == hits(t, cams, 0, cams.len() as int));
    }
}

// ── mixed-flow figures ──────────────────────────────────────────────────
//
// A day's total hides mixed flow: a hundred cars of one model in a block and
// a hundred cars of eight models interleaved load the line very differently.
// These figures come from the order alone.

/// A stretch of consecutive cars of the same model.
#[derive(Debug, Clone)]
pub struct ProductionRun {
    pub model_no: String,
    pub count: u32,
    pub start_ms: i64,
}

/// Order-derived production figures. The two ratios of the dashboard,
/// changeovers per following car and cars per run, are the quotients
/// `changeovers / (units - 1)` and `units / runs.len()`.
#[derive(Debug, Clone)]
pub struct MixFlowStats {
    pub units: u32,
    pub models: u32,
    /// Times a car's model differs from the one before.
    pub changeovers: u32,
    pub max_run: u32,
    /// Runs of a single car — the hardest case: the recipe changes for one car.
    pub singles: u32,
    pub runs: Vec<ProductionRun>,
}

pub open spec fn run_view(r: ProductionRun) -> (Seq<char>, int, i64) {
    (r.model_no@, r.count as int, r.start_ms)
}

pub open spec fn runs_view(v: Seq<ProductionRun>) -> Seq<(Seq<char>, int, i64)> {
    Seq::new(v.len(), |i: int| run_view(v[i]))
}

/// Runs of the first `n` cars: (model, count, start of the run).
pub open spec fn runs_upto(seq: Seq<(i64, String)>, n: int) -> Seq<(Seq<char>, int, i64)>
    decreases n,
{
    if n <= 0 || n > seq.len() {
        Seq::empty()
    } else {
        let rs = runs_upto(seq, n - 1);
        let (ts, m) = seq[n - 1];
        if rs.len() > 0 && rs.last().0 == m@ {
            rs.update(rs.len() - 1, (m@, rs.last().1 + 1, rs.last().2))
        } else {
            rs.push((m@, 1int, ts))
        }
    }
}

/// The distinct models in the order.
pub open spec fn model_set(seq: Seq<(i64, String)>) -> Set<Seq<char>> {
    Set::new(|m: Seq<char>| exists|i: int| 0 <= i < seq.len() && seq[i].1@ == m)
}

/// Largest run length among the first `n` runs (0 for none).
pub open spec fn max_count(rs: Seq<(Seq<char>, int, i64)>, n: int) -> int
    decreases n,
{
    if n <= 0 || n > rs.len() {
        0
    } else {
        let m = max_count(rs, n - 1);
        if rs[n - 1].1 > m {
            rs[n - 1].1
        } else {
            m
        }
    }
}

/// Runs of exactly one car among the first `n` runs.
pub open spec fn single_count(rs: Seq<(Seq<char>, int, i64)>, n: int) -> int
    decreases n,
{
    if n <= 0 || n > rs.len() {
        0
    } else {
        single_count(rs, n - 1) + if rs[n - 1].1 == 1 { 1int } else { 0 }
    }
}

proof fn lemma_runs_shape(seq: Seq<(i64, String)>, n: int)
    requires
        0 <= n <= seq.len(),
    ensures
        runs_upto(seq, n).len() <= n,
        n > 0 ==> runs_upto(seq, n).len() > 0,
        forall|k: int| 0 <= k < runs_upto(seq, n).len() ==> 1 <= (#[trigger] runs_upto(seq, n)[k]).1 <= n,
    decreases n,
{
    if n > 0 {
        lemma_runs_shape(seq, n - 1);
    }
}

proof fn lemma_count_bounds(rs: Seq<(Seq<char>, int, i64)>, n: int)
    requires
        0 <= n <= rs.len(),
    ensures
        0 <= single_count(rs, n) <= n,
        0 <= max_count(rs, n),
        forall|k: int| 0 <= k < n ==> rs[k].1 <= max_count(rs, n),
    decreases n,
{
    if n > 0 {
        lemma_count_bounds(rs, n - 1);
    }
}

/// Mixed-flow figures of a production order (ascending time).
pub fn mix_flow(seq: &[(i64, String)]) -> (r: MixFlowStats)
    requires
        seq@.len() <= u32::MAX,
    ensures
        runs_view(r.runs@) == runs_upto(seq@, seq@.len() as int),
        r.units == seq@.len(),
        r.changeovers as int == if r.runs@.len() == 0 { 0 } else { r.runs@.len() - 1 },
        r.models as int == model_set(seq@).len(),
        r.max_run as int == max_count(runs_view(r.runs@), r.runs@.len() as int),
        r.singles as int == single_count(runs_view(r.runs@), r.runs@.len() as int),
{
    let mut runs: Vec<ProductionRun> = Vec::new();
    let mut names: Vec<String> = Vec::new();
    let mut i: usize = 0;
    while i < seq.len()
        invariant
            0 <= i <= seq@.len(),
            seq@.len() <= u32::MAX,
            runs_view(runs@) == runs_upto(seq@, i as int),
            names@.len() <= i,
            strictly_sorted(strings_view(names@)),
            forall|m: Seq<char>|
                strings_view(names@).contains(m) <==> exists|q: int| 0 <= q < i && seq@[q].1@ == m,
        decreases seq.len() - i,
    {
        proof { lemma_runs_shape(seq@, i as int); }
        let ts = seq[i].0;
        let model = &seq[i].1;
        let n = runs.len();
        let ghost prev = runs_view(runs@);
        if n > 0 && runs[n - 1].model_no == *model {
            assert(prev[n - 1].1 <= i);
            let c = runs[n - 1].count + 1;
            let st = runs[n - 1].start_ms;
            let m = runs[n - 1].model_no.clone();
            runs.set(n - 1, ProductionRun { model_no: m, count: c, start_ms: st });
            assert(runs_view(runs@) =~= runs_upto(seq@, i + 1));
        } else {
            runs.push(ProductionRun { model_no: model.clone(), count: 1, start_ms: ts });
            assert(runs_view(runs@) =~= runs_upto(seq@, i + 1));
        }
        insert_sorted_distinct(&mut names, model);
        assert forall|m: Seq<char>|
            strings_view(names@).contains(m) <==> exists|q: int| 0 <= q < i + 1 && seq@[q].1@ == m by {
            if exists|q: int| 0 <= q < i + 1 && seq@[q].1@ == m {
                let q = choose|q: int| 0 <= q < i + 1 && seq@[q].1@ == m;
                if q < i {
                    assert(exists|q: int| 0 <= q < i && seq@[q].1@ == m);
                }
            }
            if m == model@ {
                assert(seq@[i as int].1@ == m);
            }
        }
        i = i + 1;
    }
    proof {
        lemma_runs_shape(seq@, seq@.len() as int);
        let sv = strings_view(names@);
        assert forall|a: int, b: int| 0 <= a < sv.len() && 0 <= b < sv.len() && a != b implies sv[a] != sv[b] by {
            if a < b {
                assert(lex_lt(sv[a], sv[b]));
                crate::text::lemma_lex_irreflexive(sv[a]);
            } else {
                assert(lex_lt(sv[b], sv[a]));
                crate::text::lemma_lex_irreflexive(sv[b]);
            }
        }
        assert(sv.no_duplicates());
        sv.unique_seq_to_set();
        assert(sv.to_set() =~= model_set(seq@));
    }
    let units = seq.len() as u32;
    let nr = runs.len();
    let changeovers: u32 = if nr == 0 { 0 } else { (nr - 1) as u32 };
    let mut max_run: u32 = 0;
    let mut singles: u32 = 0;
    let mut k: usize = 0;
    while k < nr
        invariant
            nr == runs@.len(),
            nr <= seq@.len(),
            seq@.len() <= u32::MAX,
            0 <= k <= nr,
            runs_view(runs@) == runs_upto(seq@, seq@.len() as int),
            forall|q: int| 0 <= q < nr ==> 1 <= (#[trigger] runs_view(runs@)[q]).1 <= seq@.len(),
            max_run == max_count(runs_view(runs@), k as int),
            singles == single_count(runs_view(runs@), k as int),
        decreases nr - k,
    {
        proof { lemma_count_bounds(runs_view(runs@), k as int); }
        assert(runs_view(runs@)[k as int].1 == runs@[k as int].count);
        let c = runs[k].count;
        if c > max_run {
            max_run = c;
        }
        if c == 1 {
            singles = singles + 1;
        }
        k = k + 1;
    }
    MixFlowStats { units, models: names.len() as u32, changeovers, max_run, singles, runs }
}

} // verus!
