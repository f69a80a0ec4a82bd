//! Properties that relate the library's figures to one another, beyond what
//! a single function's contract says.

use vstd::prelude::*;
use crate::domain::{
    is_aggregate, is_counted, is_mismatch_row, model_counts_view, n_counted, n_mismatch, n_model,
    n_model_mismatch, has_counted_model, AggRow,
};
use crate::schema::{DailyStats, ModelCount};
use crate::text::{lemma_lex_irreflexive, lex_lt, strictly_sorted};

verus! {

// ── a day's totals are the sum of its per-model counts ─────────────────────

pub open spec fn job_sum(ms: Seq<ModelCount>) -> int
    decreases ms.len(),
{
    if ms.len() == 0 {
        0
    } else {
        job_sum(ms.drop_last()) + ms.last().job_count
    }
}

pub open spec fn mismatch_sum(ms: Seq<ModelCount>) -> int
    decreases ms.len(),
{
    if ms.len() == 0 {
        0
    } else {
        mismatch_sum(ms.drop_last()) + ms.last().mismatch_count
    }
}

/// Σ over `names` of a per-model count of the first `n` rows
/// (`which == 0`: jobs, otherwise mismatches).
spec fn names_sum(rs: Seq<AggRow>, n: int, names: Seq<Seq<char>>, which: int) -> int
    decreases names.len(),
{
    if names.len() == 0 {
        0
    } else {
        names_sum(rs, n, names.drop_last(), which) + if which == 0 {
            n_model(rs, n, names.last())
        } else {
            n_model_mismatch(rs, n, names.last())
        }
    }
}

/// How often `x` occurs in `names`.
spec fn hits(names: Seq<Seq<char>>, x: Seq<char>) -> int
    decreases names.len(),
{
    if names.len() == 0 {
        0
    } else {
        hits(names.drop_last(), x) + if names.last() == x { 1int } else { 0 }
    }
}

proof fn lemma_hits_distinct(names: Seq<Seq<char>>, x: Seq<char>)
    requires
        strictly_sorted(names),
    ensures
        hits(names, x) == if names.contains(x) { 1int } else { 0 },
    decreases names.len(),
{
    if names.len() > 0 {
        let p = names.drop_last();
        assert(strictly_sorted(p)) by {
            assert forall|i: int, j: int| 0 <= i < j < p.len() implies lex_lt(#[trigger] p[i], #[trigger] p[j]) by {
                assert(p[i] == names[i] && p[j] == names[j]);
            }
        }
        lemma_hits_distinct(p, x);
        if names.last() == x {
            if p.contains(x) {
                let i = choose|i: int| 0 <= i < p.len() && p[i] == x;
                assert(lex_lt(names[i], names[names.len() - 1]));
                lemma_lex_irreflexive(x);
            }
            assert(names.contains(x)) by {
                assert(names[names.len() - 1] == x);
            }
        } else {
            if names.contains(x) {
                let i = choose|i: int| 0 <= i < names.len() && names[i] == x;
                assert(p[i] == x);
            }
            if p.contains(x) {
                let i = choose|i: int| 0 <= i < p.len() && p[i] == x;
                assert(names[i] == x);
            }
        }
    }
}

proof fn lemma_names_sum_step(rs: Seq<AggRow>, n: int, names: Seq<Seq<char>>, which: int)
    requires
        1 <= n <= rs.len(),
    ensures
        names_sum(rs, n, names, which) == names_sum(rs, n - 1, names, which) + if (which == 0 && is_counted(
            rs[n - 1],
        )) || (which != 0 && is_mismatch_row(rs[n - 1])) {
            hits(names, rs[n - 1].model_no@)
        } else {
            0
        },
    decreases names.len(),
{
    if names.len() > 0 {
        lemma_names_sum_step(rs, n, names.drop_last(), which);
    }
}

proof fn lemma_names_sum_total(rs: Seq<AggRow>, n: int, names: Seq<Seq<char>>, which: int)
    requires
        0 <= n <= rs.len(),
        strictly_sorted(names),
        forall|m: Seq<char>| has_counted_model(rs, rs.len() as int, m) ==> names.contains(m),
    ensures
        names_sum(rs, n, names, which) == if which == 0 { n_counted(rs, n) } else { n_mismatch(rs, n) },
    decreases n,
{
    if n == 0 {
        lemma_names_sum_zero(rs, names, which);
    } else {
        lemma_names_sum_total(rs, n - 1, names, which);
        lemma_names_sum_step(rs, n, names, which);
        let r = rs[n - 1];
        if is_counted(r) {
            assert(has_counted_model(rs, rs.len() as int, r.model_no@));
            lemma_hits_distinct(names, r.model_no@);
        }
    }
}

proof fn lemma_names_sum_zero(rs: Seq<AggRow>, names: Seq<Seq<char>>, which: int)
    ensures
        names_sum(rs, 0, names, which) == 0,
    decreases names.len(),
{
    if names.len() > 0 {
        lemma_names_sum_zero(rs, names.drop_last(), which);
    }
}

proof fn lemma_models_sum(ms: Seq<ModelCount>, rs: Seq<AggRow>)
    requires
        forall|k: int|
            0 <= k < ms.len() ==> (#[trigger] ms[k]).job_count == n_model(rs, rs.len() as int, ms[k].model_no@)
                && ms[k].mismatch_count == n_model_mismatch(rs, rs.len() as int, ms[k].model_no@),
    ensures
        job_sum(ms) == names_sum(rs, rs.len() as int, model_counts_view(ms), 0),
        mismatch_sum(ms) == names_sum(rs, rs.len() as int, model_counts_view(ms), 1),
    decreases ms.len(),
{
    if ms.len() > 0 {
        let p = ms.drop_last();
        assert forall|k: int| 0 <= k < p.len() implies (#[trigger] p[k]).job_count == n_model(rs, rs.len() as int, p[k].model_no@)
            && p[k].mismatch_count == n_model_mismatch(rs, rs.len() as int, p[k].model_no@) by {
            assert(p[k] == ms[k]);
        }
        lemma_models_sum(p, rs);
        assert(model_counts_view(ms).drop_last() =~= model_counts_view(p));
        assert(ms[ms.len() - 1] == ms.last());
    }
}

/// A day's job total is the sum of its per-model job counts, and its
/// mismatch total the sum of its per-model mismatch counts.
pub proof fn lemma_aggregate_totals(r: DailyStats, work_date: Seq<char>, jobs: Seq<AggRow>)
    requires
        is_aggregate(r, work_date, jobs),
    ensures
        r.total_jobs == job_sum(r.models@),
        r.mismatch_jobs == mismatch_sum(r.models@),
{
    let names = model_counts_view(r.models@);
    lemma_models_sum(r.models@, jobs);
    lemma_names_sum_total(jobs, jobs.len() as int, names, 0);
    lemma_names_sum_total(jobs, jobs.len() as int, names, 1);
}



/// Rows of model `m`.
pub open spec fn of_model(m: Seq<char>) -> spec_fn(AggRow) -> bool {
    |x: AggRow| x.model_no@ == m
}

/// Rows whose status is `mismatch`.
pub open spec fn status_mismatch() -> spec_fn(AggRow) -> bool {
    |x: AggRow| x.match_status@ == "mismatch"@
}

/// The rows a day's figures count: every row but `plc_only` ones.
pub open spec fn counted_rows(jobs: Seq<AggRow>) -> Seq<AggRow> {
    jobs.filter(|r: AggRow| is_counted(r))
}

proof fn lemma_counts_are_filters(rs: Seq<AggRow>, n: int, m: Seq<char>)
    requires
        0 <= n <= rs.len(),
    ensures
        n_counted(rs, n) == rs.take(n).filter(|r: AggRow| is_counted(r)).len(),
        n_mismatch(rs, n) == rs.take(n).filter(|r: AggRow| is_counted(r)).filter(status_mismatch()).len(),
        n_model(rs, n, m) == rs.take(n).filter(|r: AggRow| is_counted(r)).filter(of_model(m)).len(),
        n_model_mismatch(rs, n, m) == rs.take(n).filter(|r: AggRow| is_counted(r)).filter(of_model(m)).filter(
            status_mismatch(),
        ).len(),
    decreases n,
{
    reveal(Seq::filter);
    let pc = |r: AggRow| is_counted(r);
    let pm = status_mismatch();
    let pn = of_model(m);
    if n == 0 {
        assert(rs.take(0) =~= Seq::<AggRow>::empty());
    } else {
        lemma_counts_are_filters(rs, n - 1, m);
        let t = rs.take(n);
        assert(t.drop_last() =~= rs.take(n - 1));
        assert(t.last() == rs[n - 1]);
        let c0 = t.drop_last().filter(pc);
        if pc(rs[n - 1]) {
            assert(t.filter(pc) == c0.push(rs[n - 1]));
            assert(c0.push(rs[n - 1]).drop_last() =~= c0);
            let m0 = c0.filter(pn);
            if pn(rs[n - 1]) {
                assert(m0.push(rs[n - 1]).drop_last() =~= m0);
            }
        } else {
            assert(t.filter(pc) == c0);
        }
    }
}

/// What `aggregate` counts, in plain terms: the total is the number of rows
/// other than `plc_only`; the mismatch total is the number of those that are
/// `mismatch`; a model has an entry exactly when some such row is of it; and
/// each model's counts are the number of those rows of that model, and of
/// those the `mismatch` ones.
pub proof fn lemma_aggregate_counts_rows(r: DailyStats, work_date: Seq<char>, jobs: Seq<AggRow>)
    requires
        is_aggregate(r, work_date, jobs),
    ensures
        r.total_jobs == counted_rows(jobs).len(),
        r.mismatch_jobs == counted_rows(jobs).filter(status_mismatch()).len(),
        forall|m: Seq<char>|
            model_counts_view(r.models@).contains(m) <==> #[trigger] counted_rows(jobs).filter(of_model(m)).len() > 0,
        forall|k: int|
            0 <= k < r.models@.len() ==> (#[trigger] r.models@[k]).job_count == counted_rows(jobs).filter(
                of_model(r.models@[k].model_no@),
            ).len() && r.models@[k].mismatch_count == counted_rows(jobs).filter(
                of_model(r.models@[k].model_no@),
            ).filter(status_mismatch()).len(),
{
    let n = jobs.len() as int;
    assert(jobs.take(n) =~= jobs);
    lemma_counts_are_filters(jobs, n, Seq::empty());
    assert forall|m: Seq<char>|
        model_counts_view(r.models@).contains(m) <==> #[trigger] counted_rows(jobs).filter(of_model(m)).len() > 0 by {
        lemma_counts_are_filters(jobs, n, m);
        crate::domain::lemma_counts_bounded(jobs, n, m);
    }
    assert forall|k: int| 0 <= k < r.models@.len() implies (#[trigger] r.models@[k]).job_count == counted_rows(jobs).filter(
        of_model(r.models@[k].model_no@),
    ).len() && r.models@[k].mismatch_count == counted_rows(jobs).filter(of_model(r.models@[k].model_no@)).filter(
        status_mismatch(),
    ).len() by {
        lemma_counts_are_filters(jobs, n, r.models@[k].model_no@);
    }
}


// ── which snapshots are accepted ───────────────────────────────────────────

/// Unknown, or a signed 16-bit value.
pub open spec fn fits_int16(v: Option<i64>) -> bool {
    v matches Some(n) ==> -32768 <= n <= 32767
}

/// A station's words all fit in 16 bits.
pub open spec fn station_fits(s: crate::schema::JigStation) -> bool {
    fits_int16(s.work_id) && fits_int16(s.work_in) && fits_int16(s.shift_dist) && fits_int16(s.job_start_dist)
}

/// The rules a snapshot must keep: a non-blank edge id, exactly five
/// stations numbered 1 to 5 in order, and every known integer word within
/// the signed 16-bit range.
pub open spec fn acceptable_snapshot(r: crate::schema::RobotIn) -> bool {
    let sts = r.jig.stations@;
    &&& !crate::text::all_ws(r.edge_id@)
    &&& sts.len() == 5
    &&& forall|i: int| 0 <= i < sts.len() ==> (#[trigger] sts[i]).no == i + 1
    &&& forall|i: int| 0 <= i < sts.len() ==> station_fits(#[trigger] sts[i])
    &&& fits_int16(r.model_no)
    &&& fits_int16(r.jig.shift_distance)
    &&& fits_int16(r.jig.chattering_guard)
    &&& fits_int16(r.jig.start_sig_start_dist)
    &&& fits_int16(r.jig.start_sig_end_dist)
    &&& fits_int16(r.jig.completed.work_id)
    &&& fits_int16(r.jig.completed.work_in)
}

proof fn lemma_numbering(sts: Seq<crate::schema::JigStation>, i: int)
    requires
        0 <= i <= sts.len(),
    ensures
        crate::schema::first_misnumbered(sts, i) is None <==> forall|k: int| i <= k < sts.len() ==> (#[trigger] sts[k]).no == k + 1,
    decreases sts.len() - i,
{
    if i < sts.len() {
        lemma_numbering(sts, i + 1);
    }
}

proof fn lemma_station_words(sts: Seq<crate::schema::JigStation>, i: int)
    requires
        0 <= i <= sts.len(),
    ensures
        crate::schema::stations_int_error(sts, i) is None <==> forall|k: int| i <= k < sts.len() ==> station_fits(#[trigger] sts[k]),
    decreases sts.len() - i,
{
    if i < sts.len() {
        lemma_station_words(sts, i + 1);
    }
}

/// A snapshot is accepted exactly when it keeps every rule: a non-blank edge
/// id, five stations numbered 1 to 5, and every known integer word within
/// the signed 16-bit range.
pub proof fn lemma_accepted_iff_rules_kept(r: crate::schema::RobotIn)
    ensures
        crate::schema::robot_in_error(r) is None <==> acceptable_snapshot(r),
{
    lemma_numbering(r.jig.stations@, 0);
    lemma_station_words(r.jig.stations@, 0);
}


// ── what reconciliation judges ─────────────────────────────────────────────

/// PLC states in ascending time.
pub open spec fn ascending_states(t: Seq<crate::domain::PlcState>) -> bool {
    forall|i: int, j: int| 0 <= i <= j < t.len() ==> (#[trigger] t[i]).ts_ms <= (#[trigger] t[j]).ts_ms
}

proof fn lemma_first_after_is_split(t: Seq<crate::domain::PlcState>, at: int, i: int)
    requires
        0 <= i <= t.len(),
        ascending_states(t),
        forall|k: int| 0 <= k < i ==> (#[trigger] t[k]).ts_ms <= at,
    ensures
        ({
            let f = crate::domain::first_after(t, at, i);
            &&& i <= f <= t.len()
            &&& forall|k: int| 0 <= k < f ==> (#[trigger] t[k]).ts_ms <= at
            &&& forall|k: int| f <= k < t.len() ==> (#[trigger] t[k]).ts_ms > at
        }),
    decreases t.len() - i,
{
    if i < t.len() {
        if t[i].ts_ms <= at {
            lemma_first_after_is_split(t, at, i + 1);
        } else {
            assert forall|k: int| i <= k < t.len() implies (#[trigger] t[k]).ts_ms > at by {
                assert(t[i].ts_ms <= t[k].ts_ms);
            }
        }
    }
}

/// On an ascending timeline, the state in force at `at` is the last one that
/// starts at or before `at`; there is none exactly when every state starts
/// later.
pub proof fn lemma_state_in_force(t: Seq<crate::domain::PlcState>, at: int)
    requires
        ascending_states(t),
    ensures
        crate::domain::model_at(t, at) is None <==> forall|k: int| 0 <= k < t.len() ==> (#[trigger] t[k]).ts_ms > at,
        crate::domain::model_at(t, at) matches Some(m) ==> exists|k: int|
            0 <= k < t.len() && (#[trigger] t[k]).ts_ms <= at && m == t[k].model_no@ && forall|j: int|
                k < j < t.len() ==> (#[trigger] t[j]).ts_ms > at,
{
    lemma_first_after_is_split(t, at, 0);
    let f = crate::domain::first_after(t, at, 0);
    if f > 0 {
        assert(t[f - 1].ts_ms <= at);
    }
}

/// The verdict a camera event gets at delay `off`, if it is judged.
pub open spec fn verdict_of(t: Seq<crate::domain::PlcState>, off: int) -> spec_fn(crate::domain::CamEvent) -> Option<
    (Seq<char>, Seq<char>, crate::schema::MatchStatus),
> {
    |c: crate::domain::CamEvent|
        match crate::domain::judged_plc(t, c, off) {
            Some(p) => Some(
                (c.event_id@, p, if p == c.model_no@ {
                    crate::schema::MatchStatus::Matched
                } else {
                    crate::schema::MatchStatus::Mismatch
                }),
            ),
            None => None,
        }
}

/// Readings that are not confident.
pub open spec fn not_confident() -> spec_fn(crate::domain::CamEvent) -> bool {
    |c: crate::domain::CamEvent| !c.confident
}

proof fn lemma_verdicts_filter(t: Seq<crate::domain::PlcState>, cams: Seq<crate::domain::CamEvent>, off: int, n: int)
    requires
        0 <= n <= cams.len(),
        cams.len() <= u32::MAX,
    ensures
        crate::domain::verdicts(t, cams, off, n) == cams.take(n).filter_map(verdict_of(t, off)),
        crate::domain::tally(t, cams, off, n).skipped_low_confidence == cams.take(n).filter(not_confident()).len(),
    decreases n,
{
    reveal(Seq::filter);
    if n == 0 {
        assert(cams.take(0) =~= Seq::<crate::domain::CamEvent>::empty());
    } else {
        lemma_verdicts_filter(t, cams, off, n - 1);
        crate::domain::lemma_tally_sums(t, cams, off, n - 1);
        let c = cams.take(n);
        assert(c.drop_last() =~= cams.take(n - 1));
        assert(c.last() == cams[n - 1]);
        let f0 = cams.take(n - 1).filter(not_confident());
        if !cams[n - 1].confident {
            assert(c.filter(not_confident()) == f0.push(cams[n - 1]));
        } else {
            assert(c.filter(not_confident()) == f0);
        }
    }
}

/// Reconciliation judges exactly the confident readings that have a PLC
/// state in force after the delay, each against that state, in camera order;
/// and the readings skipped for low confidence are exactly those that are
/// not confident. Without an estimated delay nothing is judged.
pub proof fn lemma_reconcile_judges_confident(t: Seq<crate::domain::PlcState>, cams: Seq<crate::domain::CamEvent>)
    requires
        cams.len() <= u32::MAX,
    ensures
        match crate::domain::offset_spec(t, cams) {
            None => crate::domain::reconcile_spec(t, cams).0.len() == 0,
            Some(off) => crate::domain::reconcile_spec(t, cams).0 == cams.filter_map(verdict_of(t, off))
                && crate::domain::reconcile_spec(t, cams).1.skipped_low_confidence == cams.filter(not_confident()).len(),
        },
{
    if let Some(off) = crate::domain::offset_spec(t, cams) {
        lemma_verdicts_filter(t, cams, off, cams.len() as int);
        assert(cams.take(cams.len() as int) =~= cams);
    }
}

// ── timelines and runs ─────────────────────────────────────────────────────

/// The compressed PLC timeline never holds two consecutive states of the
/// same model, and each state is one of the events it was built from.
pub proof fn lemma_timeline_alternates(ev: Seq<crate::domain::PlcState>, n: int)
    requires
        0 <= n <= ev.len(),
    ensures
        forall|k: int|
            0 <= k < crate::domain::timeline_upto(ev, n).len() - 1 ==> (#[trigger] crate::domain::timeline_upto(ev, n)[k]).1
                != crate::domain::timeline_upto(ev, n)[k + 1].1,
        forall|k: int|
            0 <= k < crate::domain::timeline_upto(ev, n).len() ==> exists|i: int|
                0 <= i < n && #[trigger] crate::domain::timeline_upto(ev, n)[k] == (ev[i].ts_ms, ev[i].model_no@),
        crate::domain::timeline_upto(ev, n).len() <= n,
    decreases n,
{
    if n > 0 {
        lemma_timeline_alternates(ev, n - 1);
        let t = crate::domain::timeline_upto(ev, n - 1);
        let u = crate::domain::timeline_upto(ev, n);
        if t.len() == 0 || t.last().1 != ev[n - 1].model_no@ {
            assert(u == t.push((ev[n - 1].ts_ms, ev[n - 1].model_no@)));
            assert forall|k: int| 0 <= k < u.len() - 1 implies (#[trigger] u[k]).1 != u[k + 1].1 by {
                if k + 1 < t.len() {
                    assert(u[k] == t[k] && u[k + 1] == t[k + 1]);
                } else {
                    assert(u[k] == t.last());
                }
            }
            assert forall|k: int| 0 <= k < u.len() implies exists|i: int| 0 <= i < n && #[trigger] u[k] == (ev[i].ts_ms, ev[i].model_no@) by {
                if k < t.len() {
                    assert(u[k] == t[k]);
                    let i = choose|i: int| 0 <= i < n - 1 && #[trigger] t[k] == (ev[i].ts_ms, ev[i].model_no@);
                } else {
                    assert(u[k] == (ev[n - 1].ts_ms, ev[n - 1].model_no@));
                }
            }
        } else {
            assert forall|k: int| 0 <= k < u.len() implies exists|i: int| 0 <= i < n && #[trigger] u[k] == (ev[i].ts_ms, ev[i].model_no@) by {
                let i = choose|i: int| 0 <= i < n - 1 && #[trigger] t[k] == (ev[i].ts_ms, ev[i].model_no@);
            }
        }
    }
}

/// Event `i` starts a run: it is the first, or its model differs from the
/// model of the event before it.
pub open spec fn starts_run(ev: Seq<crate::domain::PlcState>, i: int) -> bool {
    i == 0 || ev[i].model_no@ != ev[i - 1].model_no@
}

/// The events among the first `n` that start a run, in order.
pub open spec fn run_starts(ev: Seq<crate::domain::PlcState>, n: int) -> Seq<(i64, Seq<char>)> {
    Seq::new(n as nat, |i: int| i).filter_map(
        |i: int| if starts_run(ev, i) { Some((ev[i].ts_ms, ev[i].model_no@)) } else { None },
    )
}

proof fn lemma_timeline_run_starts(ev: Seq<crate::domain::PlcState>, n: int)
    requires
        0 <= n <= ev.len(),
    ensures
        crate::domain::timeline_upto(ev, n) == run_starts(ev, n),
        n > 0 ==> crate::domain::timeline_upto(ev, n).len() > 0
            && crate::domain::timeline_upto(ev, n).last().1 == ev[n - 1].model_no@,
    decreases n,
{
    if n > 0 {
        lemma_timeline_run_starts(ev, n - 1);
        let f = |i: int| if starts_run(ev, i) { Some((ev[i].ts_ms, ev[i].model_no@)) } else { None };
        let idx = Seq::new(n as nat, |i: int| i);
        assert(idx.drop_last() =~= Seq::new((n - 1) as nat, |i: int| i));
        assert(idx.last() == n - 1);
        assert(run_starts(ev, n) == idx.filter_map(f));
        assert(run_starts(ev, n - 1) == idx.drop_last().filter_map(f));
        let t = crate::domain::timeline_upto(ev, n - 1);
        if starts_run(ev, n - 1) {
            assert(idx.filter_map(f) == idx.drop_last().filter_map(f) + seq![(ev[n - 1].ts_ms, ev[n - 1].model_no@)]);
            assert(t.len() == 0 || t.last().1 != ev[n - 1].model_no@);
            assert(t.push((ev[n - 1].ts_ms, ev[n - 1].model_no@)) =~= t + seq![(ev[n - 1].ts_ms, ev[n - 1].model_no@)]);
        } else {
            assert(idx.filter_map(f) == idx.drop_last().filter_map(f));
        }
    }
}

proof fn lemma_timeline_of_alternating(r: Seq<crate::domain::PlcState>, n: int)
    requires
        0 <= n <= r.len(),
        forall|k: int| 0 <= k < r.len() - 1 ==> (#[trigger] r[k]).model_no@ != r[k + 1].model_no@,
    ensures
        crate::domain::timeline_upto(r, n) == crate::domain::states_view(r).take(n),
    decreases n,
{
    if n > 0 {
        lemma_timeline_of_alternating(r, n - 1);
        let t = crate::domain::timeline_upto(r, n - 1);
        if n >= 2 {
            assert(t.last() == crate::domain::states_view(r)[n - 2]);
            assert(r[n - 2].model_no@ != r[n - 1].model_no@);
        }
        assert(crate::domain::states_view(r).take(n) =~= t.push((r[n - 1].ts_ms, r[n - 1].model_no@)));
    }
}

/// The timeline keeps exactly the events that start a run of one model (the
/// first event, and each whose model differs from the one before), in their
/// order; and compressing a timeline again changes nothing.
pub proof fn lemma_timeline_is_run_starts(ev: Seq<crate::domain::PlcState>, r: Seq<crate::domain::PlcState>)
    requires
        crate::domain::states_view(r) == crate::domain::timeline_upto(ev, ev.len() as int),
    ensures
        crate::domain::timeline_upto(ev, ev.len() as int) == run_starts(ev, ev.len() as int),
        crate::domain::timeline_upto(r, r.len() as int) == crate::domain::states_view(r),
{
    lemma_timeline_run_starts(ev, ev.len() as int);
    lemma_timeline_alternates(ev, ev.len() as int);
    let t = crate::domain::timeline_upto(ev, ev.len() as int);
    assert(crate::domain::states_view(r).len() == r.len());
    assert forall|k: int| 0 <= k < r.len() - 1 implies (#[trigger] r[k]).model_no@ != r[k + 1].model_no@ by {
        assert(crate::domain::states_view(r)[k] == t[k]);
        assert(crate::domain::states_view(r)[k + 1] == t[k + 1]);
    }
    lemma_timeline_of_alternating(r, r.len() as int);
    assert(crate::domain::states_view(r).take(r.len() as int) =~= crate::domain::states_view(r));
}


// ── command ↔ do, the active station ──────────────────────────────────────

/// The watched `command`/`do` pair names, in their fixed order.
pub open spec fn io_pair_names() -> Seq<Seq<char>> {
    Seq::new(crate::robot::IO_PAIR_COUNT as nat, |i: int| crate::robot::io_pair_name(i))
}

proof fn lemma_disagreeing_filter(snap: crate::schema::RobotIn, n: int)
    requires
        0 <= n <= crate::robot::IO_PAIR_COUNT,
    ensures
        crate::robot::disagreeing_upto(snap, n) == io_pair_names().take(n).filter(
            |k: Seq<char>| crate::robot::pair_disagrees(snap, k),
        ),
    decreases n,
{
    reveal(Seq::filter);
    let p = |k: Seq<char>| crate::robot::pair_disagrees(snap, k);
    if n == 0 {
        assert(io_pair_names().take(0) =~= Seq::<Seq<char>>::empty());
    } else {
        lemma_disagreeing_filter(snap, n - 1);
        let t = io_pair_names().take(n);
        assert(t.drop_last() =~= io_pair_names().take(n - 1));
        assert(t.last() == crate::robot::io_pair_name(n - 1));
        if p(t.last()) {
            assert(t.filter(p) == t.drop_last().filter(p).push(t.last()));
            assert(t.drop_last().filter(p).push(t.last()) =~= t.drop_last().filter(p) + seq![t.last()]);
        } else {
            assert(t.filter(p) == t.drop_last().filter(p));
            assert(t.drop_last().filter(p) =~= t.drop_last().filter(p) + Seq::<Seq<char>>::empty());
        }
    }
}

/// The disagreements are exactly the watched pair names, in their fixed
/// order, whose `command` and `do` values are both known and differ.
pub proof fn lemma_disagreements_are_filtered(snap: crate::schema::RobotIn)
    ensures
        crate::robot::disagreeing(snap) == io_pair_names().filter(
            |k: Seq<char>| crate::robot::pair_disagrees(snap, k),
        ),
{
    lemma_disagreeing_filter(snap, crate::robot::IO_PAIR_COUNT as int);
    assert(io_pair_names().take(crate::robot::IO_PAIR_COUNT as int) =~= io_pair_names());
}

proof fn lemma_first_flagged_is_first(st: Seq<crate::schema::JigStation>, w: int, i: int)
    requires
        0 <= i <= st.len(),
    ensures
        match crate::robot::first_flagged(st, w, i) {
            Some(j) => i <= j < st.len() && crate::robot::station_flag(st[j], w) && forall|k: int|
                i <= k < j ==> !crate::robot::station_flag(#[trigger] st[k], w),
            None => forall|k: int| i <= k < st.len() ==> !crate::robot::station_flag(#[trigger] st[k], w),
        },
    decreases st.len() - i,
{
    if i < st.len() && !crate::robot::station_flag(st[i], w) {
        lemma_first_flagged_is_first(st, w, i + 1);
    }
}

proof fn lemma_last_loaded_is_last(st: Seq<crate::schema::JigStation>, n: int)
    requires
        0 <= n <= st.len(),
    ensures
        match crate::robot::last_loaded(st, n) {
            Some(j) => 0 <= j < n && crate::robot::loaded(st[j]) && forall|k: int|
                j < k < n ==> !crate::robot::loaded(#[trigger] st[k]),
            None => forall|k: int| 0 <= k < n ==> !crate::robot::loaded(#[trigger] st[k]),
        },
    decreases n,
{
    if n > 0 && !crate::robot::loaded(st[n - 1]) {
        lemma_last_loaded_is_last(st, n - 1);
    }
}

/// The active station, in three tiers: the first station being sent to the
/// robot; if none is, the first whose job started; if none has, the last one
/// holding a work piece (work in and work id both known and non-zero); and
/// none at all when no station is in any of these states.
pub proof fn lemma_active_station_tiers(st: Seq<crate::schema::JigStation>)
    ensures
        match crate::robot::active_index(st) {
            Some(i) => 0 <= i < st.len() && ({
                ||| crate::robot::station_flag(st[i], 0) && forall|k: int|
                    0 <= k < i ==> !crate::robot::station_flag(#[trigger] st[k], 0)
                ||| (forall|k: int| 0 <= k < st.len() ==> !crate::robot::station_flag(#[trigger] st[k], 0))
                    && crate::robot::station_flag(st[i], 1) && forall|k: int|
                    0 <= k < i ==> !crate::robot::station_flag(#[trigger] st[k], 1)
                ||| (forall|k: int| 0 <= k < st.len() ==> !crate::robot::station_flag(#[trigger] st[k], 0))
                    && (forall|k: int| 0 <= k < st.len() ==> !crate::robot::station_flag(#[trigger] st[k], 1))
                    && crate::robot::loaded(st[i]) && forall|k: int|
                    i < k < st.len() ==> !crate::robot::loaded(#[trigger] st[k])
            }),
            None => forall|k: int| 0 <= k < st.len() ==> !crate::robot::station_flag(#[trigger] st[k], 0)
                && !crate::robot::station_flag(st[k], 1) && !crate::robot::loaded(st[k]),
        },
{
    lemma_first_flagged_is_first(st, 0, 0);
    lemma_first_flagged_is_first(st, 1, 0);
    lemma_last_loaded_is_last(st, st.len() as int);
}


// ── the P-area contacts raise no alarm ─────────────────────────────────────

/// `a` is `b` with other `di` contacts: every other field is the same, and
/// so is the `job_in_progress` bit.
pub open spec fn differs_in_di_only(a: crate::schema::RobotIn, b: crate::schema::RobotIn) -> bool {
    &&& a == (crate::schema::RobotIn {
        robot: crate::schema::RobotIo { di: a.robot.di, ..b.robot },
        ..b
    })
    &&& crate::robot::bit_of(a.robot.di@, "job_in_progress"@) == crate::robot::bit_of(
        b.robot.di@,
        "job_in_progress"@,
    )
}

proof fn lemma_disagreeing_same_io(a: crate::schema::RobotIn, b: crate::schema::RobotIn, n: int)
    requires
        a.robot.command == b.robot.command,
        a.robot.out == b.robot.out,
    ensures
        crate::robot::disagreeing_upto(a, n) == crate::robot::disagreeing_upto(b, n),
    decreases n,
{
    if n > 0 {
        lemma_disagreeing_same_io(a, b, n - 1);
        assert(crate::robot::pair_disagrees(a, crate::robot::io_pair_name(n - 1)) == crate::robot::pair_disagrees(
            b,
            crate::robot::io_pair_name(n - 1),
        ));
    }
}

/// The P-area `di` contacts (emergency stops, faults) raise no event: two
/// snapshot pairs that differ only in `di` contacts other than
/// `job_in_progress` give the same events and the same streak.
pub proof fn lemma_di_contacts_raise_nothing(
    prev: Option<crate::schema::RobotIn>,
    next: crate::schema::RobotIn,
    prev2: Option<crate::schema::RobotIn>,
    next2: crate::schema::RobotIn,
    ts: i64,
    streak: u32,
)
    requires
        differs_in_di_only(next2, next),
        prev2 is Some == prev is Some,
        prev matches Some(p) ==> differs_in_di_only(prev2->0, p),
    ensures
        crate::robot::detect_spec(prev2, next2, ts, streak) == crate::robot::detect_spec(prev, next, ts, streak),
{
    reveal_with_fuel(crate::robot::fault_events_upto, 2);
    assert(crate::robot::mismatch_events(next2, ts) == crate::robot::mismatch_events(next, ts));
    lemma_disagreeing_same_io(next2, next, crate::robot::IO_PAIR_COUNT as int);
    assert(crate::robot::io_events(next2, ts, streak) == crate::robot::io_events(next, ts, streak));
    if let Some(p) = prev {
        let p2 = prev2->0;
        assert(crate::robot::job_events(p2, next2, ts) == crate::robot::job_events(p, next, ts));
        assert(crate::robot::fault_events_upto(p2, next2, ts, 1) == crate::robot::fault_events_upto(p, next, ts, 1));
        assert(crate::robot::edge_events(p2, next2, ts) == crate::robot::edge_events(p, next, ts));
    }
}

pub open spec fn run_total(rs: Seq<(Seq<char>, int, i64)>) -> int
    decreases rs.len(),
{
    if rs.len() == 0 {
        0
    } else {
        run_total(rs.drop_last()) + rs.last().1
    }
}

/// The runs of a production order account for every car exactly once, and
/// two consecutive runs are always of different models.
pub proof fn lemma_runs_partition(seq: Seq<(i64, String)>, n: int)
    requires
        0 <= n <= seq.len(),
    ensures
        run_total(crate::domain::runs_upto(seq, n)) == n,
        forall|k: int|
            0 <= k < crate::domain::runs_upto(seq, n).len() - 1 ==> (#[trigger] crate::domain::runs_upto(seq, n)[k]).0
                != crate::domain::runs_upto(seq, n)[k + 1].0,
    decreases n,
{
    if n > 0 {
        lemma_runs_partition(seq, n - 1);
        let rs = crate::domain::runs_upto(seq, n - 1);
        let u = crate::domain::runs_upto(seq, n);
        let m = seq[n - 1].1;
        if rs.len() > 0 && rs.last().0 == m@ {
            let last = (m@, rs.last().1 + 1, rs.last().2);
            assert(u == rs.update(rs.len() - 1, last));
            assert(u.drop_last() =~= rs.drop_last());
            assert(rs.drop_last().push(rs.last()) =~= rs);
            assert forall|k: int| 0 <= k < u.len() - 1 implies (#[trigger] u[k]).0 != u[k + 1].0 by {
                assert(u[k] == rs[k]);
                if k + 1 < u.len() - 1 {
                    assert(u[k + 1] == rs[k + 1]);
                } else {
                    assert(u[k + 1].0 == rs[k + 1].0);
                }
            }
        } else {
            assert(u == rs.push((m@, 1int, seq[n - 1].0)));
            assert(u.drop_last() =~= rs);
            assert forall|k: int| 0 <= k < u.len() - 1 implies (#[trigger] u[k]).0 != u[k + 1].0 by {
                assert(u[k] == rs[k]);
                if k + 1 < rs.len() {
                    assert(u[k + 1] == rs[k + 1]);
                }
            }
        }
    }
}


/// The models of a run of runs, each repeated as often as its run is long.
pub open spec fn expand_runs(rs: Seq<(Seq<char>, int, i64)>) -> Seq<Seq<char>>
    decreases rs.len(),
{
    if rs.len() == 0 {
        Seq::empty()
    } else {
        expand_runs(rs.drop_last()) + Seq::new(rs.last().1 as nat, |_i: int| rs.last().0)
    }
}

/// The runs are the run-length encoding of the order: every run is at least
/// one car long and starts at the time of its first car, and expanding the
/// runs gives back the order's models, car by car.
pub proof fn lemma_runs_encode_order(seq: Seq<(i64, String)>, n: int)
    requires
        0 <= n <= seq.len(),
    ensures
        expand_runs(crate::domain::runs_upto(seq, n)) == seq.take(n).map_values(|c: (i64, String)| c.1@),
        forall|k: int|
            0 <= k < crate::domain::runs_upto(seq, n).len() ==> (#[trigger] crate::domain::runs_upto(seq, n)[k]).1 >= 1,
        forall|k: int|
            0 <= k < crate::domain::runs_upto(seq, n).len() ==> exists|i: int|
                0 <= i < n && seq[i].0 == (#[trigger] crate::domain::runs_upto(seq, n)[k]).2 && seq[i].1@
                    == crate::domain::runs_upto(seq, n)[k].0 && expand_runs(
                    crate::domain::runs_upto(seq, n).take(k),
                ).len() == i,
    decreases n,
{
    if n > 0 {
        lemma_runs_encode_order(seq, n - 1);
        let rs = crate::domain::runs_upto(seq, n - 1);
        let u = crate::domain::runs_upto(seq, n);
        let m = seq[n - 1].1;
        let models = seq.take(n).map_values(|c: (i64, String)| c.1@);
        assert(models =~= seq.take(n - 1).map_values(|c: (i64, String)| c.1@).push(m@));
        if rs.len() > 0 && rs.last().0 == m@ {
            let last = (m@, rs.last().1 + 1, rs.last().2);
            assert(u == rs.update(rs.len() - 1, last));
            assert(u.drop_last() =~= rs.drop_last());
            assert(u.last() == last);
            assert(Seq::new(last.1 as nat, |_i: int| last.0) =~= Seq::new(rs.last().1 as nat, |_i: int| rs.last().0).push(m@));
            assert(expand_runs(u) =~= expand_runs(rs).push(m@));
            assert forall|k: int| 0 <= k < u.len() implies exists|i: int|
                0 <= i < n && seq[i].0 == (#[trigger] u[k]).2 && seq[i].1@ == u[k].0 && expand_runs(u.take(k)).len() == i by {
                assert(u[k].0 == rs[k].0 && u[k].2 == rs[k].2);
                if k < u.len() - 1 {
                    assert(u.take(k) =~= rs.take(k));
                } else {
                    assert(u.take(k) =~= rs.drop_last());
                    assert(rs.take(k) =~= rs.drop_last());
                }
                let i = choose|i: int|
                    0 <= i < n - 1 && seq[i].0 == (#[trigger] rs[k]).2 && seq[i].1@ == rs[k].0 && expand_runs(rs.take(k)).len() == i;
            }
        } else {
            assert(u == rs.push((m@, 1int, seq[n - 1].0)));
            assert(u.drop_last() =~= rs);
            assert(Seq::new(1nat, |_i: int| m@) =~= seq![m@]);
            assert(expand_runs(u) =~= expand_runs(rs).push(m@));
            assert forall|k: int| 0 <= k < u.len() implies exists|i: int|
                0 <= i < n && seq[i].0 == (#[trigger] u[k]).2 && seq[i].1@ == u[k].0 && expand_runs(u.take(k)).len() == i by {
                if k < rs.len() {
                    assert(u[k] == rs[k]);
                    assert(u.take(k) =~= rs.take(k));
                    let i = choose|i: int|
                        0 <= i < n - 1 && seq[i].0 == (#[trigger] rs[k]).2 && seq[i].1@ == rs[k].0 && expand_runs(rs.take(k)).len() == i;
                } else {
                    assert(u.take(k) =~= rs);
                    assert(expand_runs(rs).len() == n - 1);
                }
            }
        }
    }
}

// ── active alarms ──────────────────────────────────────────────────────────

/// `alarm.{key}` for an entry that is on and alarm-like.
pub open spec fn alarm_entry(e: (Seq<char>, Option<bool>)) -> Option<Seq<char>> {
    if e.1 == Some(true) && crate::robot::alarm_key(e.0) {
        Some("alarm"@ + "."@ + e.0)
    } else {
        None
    }
}

proof fn lemma_group_faults_filter(m: crate::schema::BitsView, n: int)
    requires
        0 <= n <= m.len(),
    ensures
        crate::robot::group_faults("alarm"@, m, n) == m.take(n).filter_map(|e: (Seq<char>, Option<bool>)| alarm_entry(e)),
    decreases n,
{
    if n == 0 {
        assert(m.take(0) =~= Seq::<(Seq<char>, Option<bool>)>::empty());
    } else {
        lemma_group_faults_filter(m, n - 1);
        let t = m.take(n);
        assert(t.drop_last() =~= m.take(n - 1));
        assert(t.last() == m[n - 1]);
        if alarm_entry(m[n - 1]) is None {
            assert(crate::robot::group_faults("alarm"@, m, n) =~= crate::robot::group_faults("alarm"@, m, n - 1));
        }
    }
}

/// The active alarms are exactly the `alarm` entries that are on and whose
/// key mentions `estop` or `fault`, as `alarm.{key}`, in the group's order
/// (ascending keys, the group's invariant); nothing comes from `di`.
pub proof fn lemma_active_faults_are_alarm_entries(snap: crate::schema::RobotIn)
    ensures
        crate::robot::faults_upto(snap, crate::robot::FAULT_GROUP_COUNT as int)
            == snap.robot.alarm@.filter_map(|e: (Seq<char>, Option<bool>)| alarm_entry(e)),
{
    let m = snap.robot.alarm@;
    lemma_group_faults_filter(m, m.len() as int);
    assert(m.take(m.len() as int) =~= m);
    assert(crate::robot::fault_group_bits(snap, crate::robot::fault_group_name(0)) == Some(m));
    assert(crate::robot::faults_upto(snap, 0) =~= Seq::<Seq<char>>::empty());
    assert(crate::robot::faults_upto(snap, 1) =~= crate::robot::group_faults("alarm"@, m, m.len() as int));
}

// ── the delay search ───────────────────────────────────────────────────────

/// Camera readings whose model is the PLC state in force `off` seconds later.
pub open spec fn matches_at(t: Seq<crate::domain::PlcState>, off: int) -> spec_fn(crate::domain::CamEvent) -> bool {
    |c: crate::domain::CamEvent| crate::domain::model_at(t, c.ts_ms + off * 1000) == Some(c.model_no@)
}

proof fn lemma_hits_filter(t: Seq<crate::domain::PlcState>, cams: Seq<crate::domain::CamEvent>, off: int, n: int)
    requires
        0 <= n <= cams.len(),
    ensures
        crate::domain::hits(t, cams, off, n) == cams.take(n).filter(matches_at(t, off)).len(),
    decreases n,
{
    reveal(Seq::filter);
    if n == 0 {
        assert(cams.take(0) =~= Seq::<crate::domain::CamEvent>::empty());
    } else {
        lemma_hits_filter(t, cams, off, n - 1);
        let c = cams.take(n);
        assert(c.drop_last() =~= cams.take(n - 1));
        assert(c.last() == cams[n - 1]);
    }
}

/// The hits of a delay are the number of readings whose model is the PLC
/// state in force that long after them; and a delay is estimated exactly
/// when there are at least two PLC states and `MIN_SAMPLE` readings.
pub proof fn lemma_delay_search_counts(t: Seq<crate::domain::PlcState>, cams: Seq<crate::domain::CamEvent>, off: int)
    ensures
        crate::domain::hits(t, cams, off, cams.len() as int) == cams.filter(matches_at(t, off)).len(),
        crate::domain::offset_spec(t, cams) is None <==> (t.len() < 2 || cams.len() < crate::domain::MIN_SAMPLE),
{
    lemma_hits_filter(t, cams, off, cams.len() as int);
    assert(cams.take(cams.len() as int) =~= cams);
}

// ── the JIG word list ──────────────────────────────────────────────────────

proof fn lemma_stations_words_flat(sts: Seq<crate::schema::JigStation>, n: int)
    requires
        0 <= n <= sts.len(),
    ensures
        crate::robot::stations_words(sts, n) == sts.take(n).map_values(
            |s: crate::schema::JigStation| crate::robot::station_words(s),
        ).flatten_alt(),
    decreases n,
{
    if n == 0 {
        assert(sts.take(0).map_values(|s: crate::schema::JigStation| crate::robot::station_words(s))
            =~= Seq::<Seq<Option<i64>>>::empty());
    } else {
        lemma_stations_words_flat(sts, n - 1);
        let w = sts.take(n).map_values(|s: crate::schema::JigStation| crate::robot::station_words(s));
        assert(w.drop_last() =~= sts.take(n - 1).map_values(|s: crate::schema::JigStation| crate::robot::station_words(s)));
        assert(w.last() == crate::robot::station_words(sts[n - 1]));
    }
}

/// The words checked for "all zero" are the JIG settings (shift distance,
/// chattering guard, start-signal start and end distances, completed work id
/// and work in) followed by each station's work id, work in, shift distance
/// and job-start distance, station by station.
pub proof fn lemma_jig_word_list(snap: crate::schema::RobotIn)
    ensures
        crate::robot::jig_words(snap) == seq![
            snap.jig.shift_distance,
            snap.jig.chattering_guard,
            snap.jig.start_sig_start_dist,
            snap.jig.start_sig_end_dist,
            snap.jig.completed.work_id,
            snap.jig.completed.work_in,
        ] + snap.jig.stations@.map_values(|s: crate::schema::JigStation| seq![
            s.work_id,
            s.work_in,
            s.shift_dist,
            s.job_start_dist,
        ]).flatten(),
{
    let sts = snap.jig.stations@;
    lemma_stations_words_flat(sts, sts.len() as int);
    assert(sts.take(sts.len() as int) =~= sts);
    let w = sts.map_values(|s: crate::schema::JigStation| crate::robot::station_words(s));
    assert(w =~= sts.map_values(|s: crate::schema::JigStation| seq![s.work_id, s.work_in, s.shift_dist, s.job_start_dist]));
    w.lemma_flatten_and_flatten_alt_are_equivalent();
}

// ── what each operation is for ─────────────────────────────────────────────

/// Two present model numbers match exactly when they are the same text,
/// character for character over their whole length; otherwise the job is a
/// mismatch. One missing side makes the job PLC-only or camera-only.
pub proof fn lemma_classify_compares_whole_models(a: Seq<char>, b: Seq<char>)
    ensures
        crate::domain::classify_spec(Some(a), Some(b)) == crate::schema::MatchStatus::Matched <==> (a.len() == b.len()
            && forall|i: int| 0 <= i < a.len() ==> a[i] == b[i]),
        crate::domain::classify_spec(Some(a), Some(b)) != crate::schema::MatchStatus::Matched
            ==> crate::domain::classify_spec(Some(a), Some(b)) == crate::schema::MatchStatus::Mismatch,
        crate::domain::classify_spec(Some(a), None) == crate::schema::MatchStatus::PlcOnly,
        crate::domain::classify_spec(None, Some(b)) == crate::schema::MatchStatus::CameraOnly,
        crate::domain::classify_spec(None, None) == crate::schema::MatchStatus::Mismatch,
{
    if a.len() == b.len() && forall|i: int| 0 <= i < a.len() ==> a[i] == b[i] {
        assert(a =~= b);
    }
}

proof fn lemma_stations_no_cycle(
    ps: Seq<crate::schema::JigStation>,
    ns: Seq<crate::schema::JigStation>,
    ts: i64,
    k: int,
)
    ensures
        forall|j: int|
            0 <= j < crate::robot::stations_events(ps, ns, ts, k).len() ==> (#[trigger] crate::robot::stations_events(
                ps,
                ns,
                ts,
                k,
            )[j]).kind != crate::robot::RobotEventKind::CycleCompleted,
    decreases k,
{
    if k > 0 {
        lemma_stations_no_cycle(ps, ns, ts, k - 1);
    }
}

proof fn lemma_alarms_no_cycle(
    g: Seq<char>,
    pm: crate::schema::BitsView,
    nm: crate::schema::BitsView,
    ts: i64,
    model_no: Option<i64>,
    n: int,
)
    ensures
        forall|j: int|
            0 <= j < crate::robot::alarm_edges(g, pm, nm, ts, model_no, n).len() ==> (#[trigger] crate::robot::alarm_edges(
                g,
                pm,
                nm,
                ts,
                model_no,
                n,
            )[j]).kind != crate::robot::RobotEventKind::CycleCompleted,
    decreases n,
{
    if n > 0 {
        lemma_alarms_no_cycle(g, pm, nm, ts, model_no, n - 1);
    }
}

/// A completed cycle is reported only against a usable earlier snapshot,
/// when the completed work id changed to a known, non-zero value, and it
/// carries that work id: a drop to 0 (a counter reset) or an unknown id is
/// no cycle. Such a change between two usable snapshots is always reported.
pub proof fn lemma_cycles_carry_completed_work(
    prev: Option<crate::schema::RobotIn>,
    next: crate::schema::RobotIn,
    ts: i64,
    streak: u32,
)
    ensures
        forall|k: int|
            0 <= k < crate::robot::detect_spec(prev, next, ts, streak).0.len() && (#[trigger] crate::robot::detect_spec(
                prev,
                next,
                ts,
                streak,
            ).0[k]).kind == crate::robot::RobotEventKind::CycleCompleted ==> ({
                &&& next.jig.completed.work_id matches Some(w) && w != 0
                &&& crate::robot::detect_spec(prev, next, ts, streak).0[k].model_no == next.jig.completed.work_id
                &&& prev matches Some(p) && p.jig.completed.work_id != next.jig.completed.work_id
            }),
        (prev is Some && !crate::robot::degraded(prev->0) && !crate::robot::degraded(next)
            && prev->0.jig.completed.work_id != next.jig.completed.work_id && next.jig.completed.work_id is Some
            && next.jig.completed.work_id->0 != 0) ==> exists|k: int|
            0 <= k < crate::robot::detect_spec(prev, next, ts, streak).0.len() && (#[trigger] crate::robot::detect_spec(
                prev,
                next,
                ts,
                streak,
            ).0[k]).kind == crate::robot::RobotEventKind::CycleCompleted,
{
    reveal_with_fuel(crate::robot::fault_events_upto, 2);
    let out = crate::robot::detect_spec(prev, next, ts, streak).0;
    let base = crate::robot::mismatch_events(next, ts) + crate::robot::io_events(next, ts, streak);
    assert forall|j: int| 0 <= j < base.len() implies (#[trigger] base[j]).kind != crate::robot::RobotEventKind::CycleCompleted by {
        if j < crate::robot::mismatch_events(next, ts).len() {
            assert(base[j] == crate::robot::mismatch_events(next, ts)[j]);
        } else {
            assert(base[j] == crate::robot::io_events(next, ts, streak)[j - crate::robot::mismatch_events(next, ts).len()]);
        }
    }
    if let Some(p) = prev {
        if !crate::robot::degraded(next) && !crate::robot::degraded(p) {
            let st = crate::robot::stations_events(p.jig.stations@, next.jig.stations@, ts, next.jig.stations@.len() as int);
            let jb = crate::robot::job_events(p, next, ts);
            let cy = crate::robot::cycle_events(p, next, ts);
            let fe = crate::robot::fault_events_upto(p, next, ts, crate::robot::FAULT_GROUP_COUNT as int);
            lemma_stations_no_cycle(p.jig.stations@, next.jig.stations@, ts, next.jig.stations@.len() as int);
            lemma_alarms_no_cycle("alarm"@, p.robot.alarm@, next.robot.alarm@, ts, next.model_no, next.robot.alarm@.len() as int);
            assert(fe =~= crate::robot::alarm_edges("alarm"@, p.robot.alarm@, next.robot.alarm@, ts, next.model_no, next.robot.alarm@.len() as int));
            assert(out == base + (st + jb + cy + fe));
            if p.jig.completed.work_id != next.jig.completed.work_id && next.jig.completed.work_id is Some
                && next.jig.completed.work_id->0 != 0 {
                let k: int = (base.len() + st.len() + jb.len()) as int;
                assert(out[k] == cy[0]);
                assert(out[k].kind == crate::robot::RobotEventKind::CycleCompleted);
            }
            assert forall|k: int| 0 <= k < out.len() && (#[trigger] out[k]).kind == crate::robot::RobotEventKind::CycleCompleted implies ({
                &&& next.jig.completed.work_id matches Some(w) && w != 0
                &&& out[k].model_no == next.jig.completed.work_id
                &&& p.jig.completed.work_id != next.jig.completed.work_id
            }) by {
                let e = out[k];
                if k < base.len() {
                    assert(e == base[k]);
                } else {
                    let k1 = k - base.len();
                    if k1 < st.len() {
                        assert(e == st[k1]);
                    } else if k1 < st.len() + jb.len() {
                        assert(e == jb[k1 - st.len()]);
                    } else if k1 < st.len() + jb.len() + cy.len() {
                        assert(e == cy[k1 - st.len() - jb.len()]);
                    } else {
                        assert(e == fe[k1 - st.len() - jb.len() - cy.len()]);
                    }
                }
            }
        }
    }
}

/// Every camera reading handed to the reconciliation comes from a stored
/// row: it has that row's event id, camera time and camera model, and it
/// carries the confidence flag given for that row, so a reading below the
/// threshold is never judged.
pub proof fn lemma_cam_events_keep_row_confidence(
    rows: Seq<crate::jobs::JobView>,
    confident: Seq<bool>,
    out: Seq<crate::domain::CamEvent>,
)
    requires
        confident.len() == rows.len(),
        crate::views::stably_sorted_cams(crate::views::cam_candidates(rows, confident), out),
    ensures
        forall|k: int|
            0 <= k < out.len() ==> exists|i: int|
                0 <= i < rows.len() && rows[i].event_id == (#[trigger] out[k]).event_id@ && out[k].confident == confident[i]
                    && rows[i].camera_ts == Some(out[k].ts_ms) && rows[i].camera_model_no == Some(out[k].model_no@),
{
    let c = crate::views::cam_candidates(rows, confident);
    lemma_cam_candidates_from_rows(rows, confident, rows.len() as int);
    assert(rows.take(rows.len() as int) =~= rows);
    let perm = choose|perm: Seq<usize>|
        crate::order::is_stable_order(crate::views::cam_keys(c), perm) && crate::views::cams_view(out)
            == crate::views::reorder(c, perm);
    assert(crate::order::is_stable_order(crate::views::cam_keys(c), perm));
    assert(crate::views::cams_view(out) == crate::views::reorder(c, perm));
    assert(crate::views::cam_keys(c).len() == c.len());
    assert(out.len() == perm.len());
    assert forall|k: int| 0 <= k < out.len() implies exists|i: int|
        0 <= i < rows.len() && rows[i].event_id == (#[trigger] out[k]).event_id@ && out[k].confident == confident[i]
            && rows[i].camera_ts == Some(out[k].ts_ms) && rows[i].camera_model_no == Some(out[k].model_no@) by {
        assert(crate::views::cams_view(out)[k] == (out[k].event_id@, out[k].ts_ms, out[k].model_no@, out[k].confident));
        assert(crate::views::cams_view(out)[k] == c[perm[k] as int]);
        assert(perm[k] < crate::views::cam_keys(c).len());
        let q = perm[k] as int;
        assert(0 <= q < c.len());
    }
}

proof fn lemma_cam_candidates_from_rows(rows: Seq<crate::jobs::JobView>, confident: Seq<bool>, n: int)
    requires
        confident.len() == rows.len(),
        0 <= n <= rows.len(),
    ensures
        forall|q: int|
            0 <= q < crate::views::cam_candidates(rows.take(n), confident).len() ==> exists|i: int|
                0 <= i < n && rows[i].event_id == (#[trigger] crate::views::cam_candidates(rows.take(n), confident)[q]).0
                    && crate::views::cam_candidates(rows.take(n), confident)[q].3 == confident[i]
                    && rows[i].camera_ts == Some(crate::views::cam_candidates(rows.take(n), confident)[q].1)
                    && rows[i].camera_model_no == Some(crate::views::cam_candidates(rows.take(n), confident)[q].2),
    decreases n,
{
    if n > 0 {
        lemma_cam_candidates_from_rows(rows, confident, n - 1);
        let t = rows.take(n);
        assert(t.drop_last() =~= rows.take(n - 1));
        assert(t.last() == rows[n - 1]);
        let prevc = crate::views::cam_candidates(rows.take(n - 1), confident);
        let cur = crate::views::cam_candidates(t, confident);
        assert forall|q: int| 0 <= q < cur.len() implies exists|i: int|
            0 <= i < n && rows[i].event_id == (#[trigger] cur[q]).0 && cur[q].3 == confident[i]
                && rows[i].camera_ts == Some(cur[q].1) && rows[i].camera_model_no == Some(cur[q].2) by {
            if q < prevc.len() {
                assert(cur[q] == prevc[q]);
                let i = choose|i: int|
                    0 <= i < n - 1 && rows[i].event_id == (#[trigger] prevc[q]).0 && prevc[q].3 == confident[i]
                        && rows[i].camera_ts == Some(prevc[q].1) && rows[i].camera_model_no == Some(prevc[q].2);
            } else {
                assert(cur[q] == crate::views::cam_candidate(rows[n - 1], confident[n - 1])->0);
            }
        }
    }
}

/// A narrowed window lies within the requested one: it never starts before
/// the requested start nor ends after the requested end. A window of at most
/// `MAX_RANGE_DAYS` days is kept as asked; a longer one ends no later than
/// the last stored date and starts no earlier than the first.
pub proof fn lemma_narrowed_within_request(f: int, t: int, bounds: Option<(Option<i32>, Option<i32>)>)
    requires
        f <= t,
    ensures
        crate::dates::narrowed(f, t, bounds).0 >= f,
        crate::dates::narrowed(f, t, bounds).1 <= t,
        crate::dates::span(f, t) <= crate::dates::MAX_RANGE_DAYS ==> crate::dates::narrowed(f, t, bounds) == (f, t),
        bounds matches Some((_, Some(bl))) ==> (crate::dates::span(f, t) > crate::dates::MAX_RANGE_DAYS
            ==> crate::dates::narrowed(f, t, bounds).1 <= bl),
        bounds matches Some((Some(bf), _)) ==> (crate::dates::span(f, t) > crate::dates::MAX_RANGE_DAYS
            ==> crate::dates::narrowed(f, t, bounds).0 >= bf),
{
}

/// The model filter keeps a row exactly when its PLC model or its camera
/// model is the requested one; the status filter, exactly when its status is
/// the requested one; no filter keeps every row.
pub proof fn lemma_job_filter_is_either_model(r: crate::jobs::JobView, m: Option<Seq<char>>, st: Option<Seq<char>>)
    ensures
        crate::views::job_passes(r, m, st) <==> (match m {
            Some(x) => r.plc_model_no == Some(x) || r.camera_model_no == Some(x),
            None => true,
        }) && (match st {
            Some(x) => r.match_status == x,
            None => true,
        }),
        m matches Some(x) && r.plc_model_no == Some(x) && st is None ==> crate::views::job_passes(r, m, st),
{
}

// ── identifiers ────────────────────────────────────────────────────────────

/// Sanitising non-empty text always yields a valid identifier, so ids built
/// from edge input pass `check_identifier`.
pub proof fn lemma_sanitized_is_identifier(s: Seq<char>)
    requires
        s.len() > 0,
    ensures
        crate::cql::is_identifier(crate::gateway::sanitized(s)),
{
    let t = crate::gateway::sanitized(s);
    assert forall|i: int| 0 <= i < t.len() implies crate::cql::ident_char(#[trigger] t[i]) by {
        assert(t[i] == crate::gateway::sanitize_char(s[i]));
    }
}

/// The robot state's model number survives storage: what is written reads
/// back the same, "none" included, for every number but `i64::MIN`.
pub proof fn lemma_model_no_roundtrip(m: Option<i64>)
    requires
        m != Some(i64::MIN),
    ensures
        crate::robot_store::stored_model(match m {
            Some(n) => n,
            None => i64::MIN,
        }) == m,
{
}

// ── date bounds ────────────────────────────────────────────────────────────

/// The date a row contributes to the bounds: its date when it is counted.
pub open spec fn counted_date(r: crate::coredb::RawRow) -> Option<Seq<char>> {
    match crate::jobs::g_text(r.columns@, "match_status"@) {
        Ok(st) => if st == "plc_only"@ {
            None
        } else {
            match crate::jobs::g_text(r.columns@, "work_date"@) {
                Ok(d) => Some(d),
                Err(_) => None,
            }
        },
        Err(_) => None,
    }
}

pub open spec fn within(d: Seq<char>, lo: Seq<char>, hi: Seq<char>) -> bool {
    !lex_lt(d, lo) && !lex_lt(hi, d)
}

/// The bounds found for a set of rows enclose the date of every counted
/// row, and the earliest is not after the latest.
pub proof fn lemma_bounds_enclose(rows: Seq<crate::coredb::RawRow>, lo: Seq<char>, hi: Seq<char>)
    requires
        crate::jobs::bounds_dec(rows) == Ok::<Option<(Seq<char>, Seq<char>)>, Seq<char>>(Some((lo, hi))),
    ensures
        !lex_lt(hi, lo),
        forall|i: int| 0 <= i < rows.len() ==> match counted_date(#[trigger] rows[i]) {
            Some(d) => within(d, lo, hi),
            None => true,
        },
    decreases rows.len(),
{
    let p = rows.drop_last();
    let last = rows.last();
    assert forall|i: int| 0 <= i < p.len() implies #[trigger] p[i] == rows[i] by {}
    let acc = crate::jobs::bounds_dec(p)->Ok_0;
    let st = crate::jobs::g_text(last.columns@, "match_status"@)->Ok_0;
    if st == "plc_only"@ {
        lemma_bounds_enclose(p, lo, hi);
        assert forall|i: int| 0 <= i < rows.len() implies match counted_date(#[trigger] rows[i]) {
            Some(d) => within(d, lo, hi),
            None => true,
        } by {
            if i < p.len() {
                assert(p[i] == rows[i]);
            }
        }
    } else {
        let d0 = crate::jobs::g_text(last.columns@, "work_date"@)->Ok_0;
        lemma_lex_irreflexive(d0);
        match acc {
            None => {
                assert forall|i: int| 0 <= i < rows.len() implies match counted_date(#[trigger] rows[i]) {
                    Some(d) => within(d, lo, hi),
                    None => true,
                } by {
                    if i < p.len() {
                        assert(p[i] == rows[i]);
                        lemma_no_counted_without_bounds(p, i);
                    }
                }
            },
            Some(b) => {
                lemma_bounds_enclose(p, b.0, b.1);
                // lo = min(d0, b.0), hi = max(b.1, d0)
                if d0 != b.0 {
                    crate::text::lemma_lex_total(d0, b.0);
                }
                if d0 != b.1 {
                    crate::text::lemma_lex_total(d0, b.1);
                }
                lemma_lex_irreflexive(b.0);
                lemma_lex_irreflexive(b.1);
                if lex_lt(hi, lo) {
                    if lo == d0 && hi == d0 {
                    } else if lo == d0 {
                        crate::text::lemma_lex_transitive(b.1, d0, b.1);
                    } else if hi == d0 {
                        crate::text::lemma_lex_transitive(d0, b.0, d0);
                    } else {
                    }
                }
                assert forall|i: int| 0 <= i < rows.len() implies match counted_date(#[trigger] rows[i]) {
                    Some(d) => within(d, lo, hi),
                    None => true,
                } by {
                    if i < p.len() {
                        assert(p[i] == rows[i]);
                        if let Some(d) = counted_date(rows[i]) {
                            if lex_lt(d, lo) && lo == d0 {
                                crate::text::lemma_lex_transitive(d, d0, b.0);
                            }
                            if lex_lt(hi, d) && hi == d0 {
                                crate::text::lemma_lex_transitive(b.1, d0, d);
                            }
                        }
                    } else {
                        assert(rows[i] == last);
                        if lo != d0 {
                            crate::text::lemma_lex_asymmetric(b.0, d0);
                        }
                        if hi != d0 {
                            crate::text::lemma_lex_asymmetric(d0, b.1);
                        }
                    }
                }
            },
        }
    }
}

/// While no counted row has been seen the bounds stay empty.
proof fn lemma_no_counted_without_bounds(rows: Seq<crate::coredb::RawRow>, i: int)
    requires
        0 <= i < rows.len(),
        crate::jobs::bounds_dec(rows) == Ok::<Option<(Seq<char>, Seq<char>)>, Seq<char>>(None),
    ensures
        counted_date(rows[i]) is None,
    decreases rows.len(),
{
    let p = rows.drop_last();
    if i < p.len() {
        assert(p[i] == rows[i]);
        lemma_no_counted_without_bounds(p, i);
    }
}


// ── robot interface events ─────────────────────────────────────────────────

/// A snapshot with failed reads yields no event and leaves the
/// disagreement streak as it was, whatever came before.
pub proof fn lemma_degraded_snapshot_is_quiet(prev: Option<crate::schema::RobotIn>, next: crate::schema::RobotIn, ts: i64, streak: u32)
    requires
        crate::robot::degraded(next),
    ensures
        crate::robot::detect_spec(prev, next, ts, streak) == (Seq::<crate::robot::RobotEventView>::empty(), streak as int),
{
}

proof fn lemma_sorted_lookup(m: crate::schema::BitsView, i: int)
    requires
        crate::schema::bits_sorted(m),
        0 <= i < m.len(),
    ensures
        crate::schema::bits_get(m, m[i].0) == Some(m[i].1),
    decreases i,
{
    if i > 0 {
        let t = m.drop_first();
        assert(lex_lt(m[0].0, m[i].0));
        if m[0].0 == m[i].0 {
            lemma_lex_irreflexive(m[0].0);
        }
        assert(crate::schema::bits_sorted(t)) by {
            assert forall|a: int, b: int| 0 <= a < b < t.len() implies lex_lt(#[trigger] t[a].0, #[trigger] t[b].0) by {
                assert(t[a] == m[a + 1] && t[b] == m[b + 1]);
            }
        }
        lemma_sorted_lookup(t, i - 1);
        assert(t[i - 1] == m[i]);
    }
}

proof fn lemma_no_alarm_without_change(g: Seq<char>, m: crate::schema::BitsView, ts: i64, model_no: Option<i64>, n: int)
    requires
        crate::schema::bits_sorted(m),
        0 <= n <= m.len(),
    ensures
        crate::robot::alarm_edges(g, m, m, ts, model_no, n) == Seq::<crate::robot::RobotEventView>::empty(),
    decreases n,
{
    if n > 0 {
        lemma_no_alarm_without_change(g, m, ts, model_no, n - 1);
        lemma_sorted_lookup(m, n - 1);
        assert(crate::robot::alarm_edges(g, m, m, ts, model_no, n) =~= Seq::<crate::robot::RobotEventView>::empty());
    }
}

proof fn lemma_no_station_edges(ps: Seq<crate::schema::JigStation>, ts: i64, k: int)
    requires
        0 <= k <= ps.len(),
    ensures
        crate::robot::stations_events(ps, ps, ts, k) == Seq::<crate::robot::RobotEventView>::empty(),
    decreases k,
{
    if k > 0 {
        lemma_no_station_edges(ps, ts, k - 1);
        assert(crate::robot::station_events(ps[k - 1], ps[k - 1], ts) =~= Seq::<crate::robot::RobotEventView>::empty());
        assert(crate::robot::stations_events(ps, ps, ts, k) =~= Seq::<crate::robot::RobotEventView>::empty());
    }
}

/// Edges need a change: comparing a snapshot with itself yields no
/// hand-off, job, cycle or fault event.
pub proof fn lemma_no_edges_without_change(s: crate::schema::RobotIn, ts: i64)
    requires
        crate::schema::bits_sorted(s.robot.alarm@),
        crate::schema::bits_sorted(s.robot.di@),
    ensures
        crate::robot::edge_events(s, s, ts) == Seq::<crate::robot::RobotEventView>::empty(),
{
    lemma_no_station_edges(s.jig.stations@, ts, s.jig.stations@.len() as int);
    lemma_no_alarm_without_change("alarm"@, s.robot.alarm@, ts, s.model_no, s.robot.alarm@.len() as int);
    lemma_no_alarm_without_change("di"@, s.robot.di@, ts, s.model_no, s.robot.di@.len() as int);
    assert(crate::robot::job_events(s, s, ts) =~= Seq::<crate::robot::RobotEventView>::empty());
    assert(crate::robot::cycle_events(s, s, ts) =~= Seq::<crate::robot::RobotEventView>::empty());
    reveal_with_fuel(crate::robot::fault_events_upto, 2);
    assert(crate::robot::fault_events_upto(s, s, ts, 1) =~= Seq::<crate::robot::RobotEventView>::empty());
    assert(crate::robot::edge_events(s, s, ts) =~= Seq::<crate::robot::RobotEventView>::empty());
}

/// The I/O disagreement streak counts consecutive disagreeing snapshots:
/// it restarts at 0 on a snapshot where command and output agree.
pub proof fn lemma_streak_resets(prev: Option<crate::schema::RobotIn>, next: crate::schema::RobotIn, ts: i64, streak: u32)
    requires
        !crate::robot::degraded(next),
    ensures
        crate::robot::disagreeing(next).len() == 0 ==> crate::robot::detect_spec(prev, next, ts, streak).1 == 0,
        crate::robot::disagreeing(next).len() != 0 ==> crate::robot::detect_spec(prev, next, ts, streak).1 == streak + 1,
{
}


/// Polling the model a state already records is no change: after a poll is
/// stored, the same poll again is recognised as unchanged.
pub proof fn lemma_repoll_is_unchanged(s: crate::plc_state::PlcStateRow, model: Seq<char>)
    requires
        crate::coredb::opt_str_view(s.model_no) == Some(model),
    ensures
        !crate::ingest::model_changed(Some(s), model),
{
}


// ── reconciliation ─────────────────────────────────────────────────────────

/// Verdict `v` names a confident reading among the first `n`, and calls it a
/// mismatch exactly when the PLC model differs from the reading's.
pub open spec fn names_confident_reading(
    cams: Seq<crate::domain::CamEvent>,
    n: int,
    v: (Seq<char>, Seq<char>, crate::schema::MatchStatus),
) -> bool {
    exists|i: int|
        0 <= i < n && (#[trigger] cams[i]).confident && v.0 == cams[i].event_id@ && (v.2
            == crate::schema::MatchStatus::Mismatch <==> v.1 != cams[i].model_no@)
}

/// Only confident readings get a verdict, one per judged reading: the
/// verdicts count exactly the matched and mismatched readings, and each
/// names a confident camera event.
pub proof fn lemma_verdicts_are_judged(
    t: Seq<crate::domain::PlcState>,
    cams: Seq<crate::domain::CamEvent>,
    off: int,
    n: int,
)
    requires
        0 <= n <= cams.len(),
        cams.len() <= u32::MAX,
    ensures
        crate::domain::verdicts(t, cams, off, n).len() == crate::domain::tally(t, cams, off, n).matched
            + crate::domain::tally(t, cams, off, n).mismatch,
        forall|k: int|
            0 <= k < crate::domain::verdicts(t, cams, off, n).len() ==> names_confident_reading(
                cams,
                n,
                #[trigger] crate::domain::verdicts(t, cams, off, n)[k],
            ),
    decreases n,
{
    if n > 0 {
        lemma_verdicts_are_judged(t, cams, off, n - 1);
        crate::domain::lemma_tally_sums(t, cams, off, n - 1);
        let v = crate::domain::verdicts(t, cams, off, n);
        let p = crate::domain::verdicts(t, cams, off, n - 1);
        assert forall|k: int| 0 <= k < v.len() implies names_confident_reading(cams, n, #[trigger] v[k]) by {
            if k < p.len() {
                assert(v[k] == p[k]);
                assert(names_confident_reading(cams, n - 1, p[k]));
                let i = choose|i: int|
                    0 <= i < n - 1 && (#[trigger] cams[i]).confident && p[k].0 == cams[i].event_id@ && (p[k].2
                        == crate::schema::MatchStatus::Mismatch <==> p[k].1 != cams[i].model_no@);
                assert(cams[i].confident);
            } else {
                assert(cams[n - 1].confident);
            }
        }
    }
}


// ── totals over a window ───────────────────────────────────────────────────

/// Σ of the job counts (`which == 0`) or mismatch counts of the first `n`
/// entries.
pub open spec fn entries_sum(es: Seq<(Seq<char>, u64, u64)>, n: int, which: int) -> int
    decreases n,
{
    if n <= 0 || n > es.len() {
        0
    } else {
        entries_sum(es, n - 1, which) + if which == 0 { es[n - 1].1 as int } else { es[n - 1].2 as int }
    }
}

/// Σ over days of their job totals (`which == 0`) or mismatch totals.
pub open spec fn days_sum(daily: Seq<DailyStats>, which: int) -> int
    decreases daily.len(),
{
    if daily.len() == 0 {
        0
    } else {
        days_sum(daily.drop_last(), which) + if which == 0 {
            daily.last().total_jobs as int
        } else {
            daily.last().mismatch_jobs as int
        }
    }
}

/// Σ over `names` of each name's share of the first `n` entries.
spec fn named_sum(es: Seq<(Seq<char>, u64, u64)>, n: int, names: Seq<Seq<char>>, which: int) -> int
    decreases names.len(),
{
    if names.len() == 0 {
        0
    } else {
        named_sum(es, n, names.drop_last(), which) + crate::views::model_sum(es, n, names.last(), which)
    }
}

/// Σ over `names` of `v` where the name is `x`.
spec fn weighted_hits(names: Seq<Seq<char>>, x: Seq<char>, v: int) -> int
    decreases names.len(),
{
    if names.len() == 0 {
        0
    } else {
        weighted_hits(names.drop_last(), x, v) + if names.last() == x { v } else { 0 }
    }
}

proof fn lemma_weighted_hits(names: Seq<Seq<char>>, x: Seq<char>, v: int)
    requires
        strictly_sorted(names),
    ensures
        weighted_hits(names, x, v) == if names.contains(x) { v } else { 0 },
    decreases names.len(),
{
    if names.len() > 0 {
        let p = names.drop_last();
        assert(strictly_sorted(p)) by {
            assert forall|i: int, j: int| 0 <= i < j < p.len() implies lex_lt(#[trigger] p[i], #[trigger] p[j]) by {
                assert(p[i] == names[i] && p[j] == names[j]);
            }
        }
        lemma_weighted_hits(p, x, v);
        if names.last() == x {
            if p.contains(x) {
                let i = choose|i: int| 0 <= i < p.len() && p[i] == x;
                assert(lex_lt(names[i], names[names.len() - 1]));
                lemma_lex_irreflexive(x);
            }
            assert(names[names.len() - 1] == x);
        } else {
            if names.contains(x) {
                let i = choose|i: int| 0 <= i < names.len() && names[i] == x;
                assert(p[i] == x);
            }
            if p.contains(x) {
                let i = choose|i: int| 0 <= i < p.len() && p[i] == x;
                assert(names[i] == x);
            }
        }
    }
}

proof fn lemma_named_sum_step(es: Seq<(Seq<char>, u64, u64)>, n: int, names: Seq<Seq<char>>, which: int)
    requires
        1 <= n <= es.len(),
    ensures
        named_sum(es, n, names, which) == named_sum(es, n - 1, names, which) + weighted_hits(
            names,
            es[n - 1].0,
            if which == 0 { es[n - 1].1 as int } else { es[n - 1].2 as int },
        ),
    decreases names.len(),
{
    if names.len() > 0 {
        lemma_named_sum_step(es, n, names.drop_last(), which);
    }
}

proof fn lemma_named_sum_zero(es: Seq<(Seq<char>, u64, u64)>, names: Seq<Seq<char>>, which: int)
    ensures
        named_sum(es, 0, names, which) == 0,
    decreases names.len(),
{
    if names.len() > 0 {
        lemma_named_sum_zero(es, names.drop_last(), which);
    }
}

proof fn lemma_named_sum_total(es: Seq<(Seq<char>, u64, u64)>, n: int, names: Seq<Seq<char>>, which: int)
    requires
        0 <= n <= es.len(),
        strictly_sorted(names),
        forall|k: int| 0 <= k < es.len() ==> names.contains(#[trigger] es[k].0),
    ensures
        named_sum(es, n, names, which) == entries_sum(es, n, which),
    decreases n,
{
    if n == 0 {
        lemma_named_sum_zero(es, names, which);
    } else {
        lemma_named_sum_total(es, n - 1, names, which);
        lemma_named_sum_step(es, n, names, which);
        assert(names.contains(es[n - 1].0));
        lemma_weighted_hits(names, es[n - 1].0, if which == 0 { es[n - 1].1 as int } else { es[n - 1].2 as int });
    }
}

proof fn lemma_counts_named(ms: Seq<ModelCount>, es: Seq<(Seq<char>, u64, u64)>)
    requires
        forall|k: int|
            0 <= k < ms.len() ==> (#[trigger] ms[k]).job_count == crate::views::model_sum(es, es.len() as int, ms[k].model_no@, 0)
                && ms[k].mismatch_count == crate::views::model_sum(es, es.len() as int, ms[k].model_no@, 1),
    ensures
        job_sum(ms) == named_sum(es, es.len() as int, model_counts_view(ms), 0),
        mismatch_sum(ms) == named_sum(es, es.len() as int, model_counts_view(ms), 1),
    decreases ms.len(),
{
    if ms.len() > 0 {
        let p = ms.drop_last();
        assert forall|k: int| 0 <= k < p.len() implies (#[trigger] p[k]).job_count == crate::views::model_sum(es, es.len() as int, p[k].model_no@, 0)
            && p[k].mismatch_count == crate::views::model_sum(es, es.len() as int, p[k].model_no@, 1) by {
            assert(p[k] == ms[k]);
        }
        lemma_counts_named(p, es);
        assert(model_counts_view(ms).drop_last() =~= model_counts_view(p));
        assert(ms[ms.len() - 1] == ms.last());
    }
}

proof fn lemma_entries_concat(a: Seq<(Seq<char>, u64, u64)>, b: Seq<(Seq<char>, u64, u64)>, k: int, which: int)
    requires
        0 <= k <= b.len(),
    ensures
        entries_sum(a + b, a.len() + k, which) == entries_sum(a, a.len() as int, which) + entries_sum(b, k, which),
    decreases k,
{
    if k == 0 {
        lemma_entries_prefix(a, b, a.len() as int, which);
    } else {
        lemma_entries_concat(a, b, k - 1, which);
        assert((a + b)[a.len() + k - 1] == b[k - 1]);
    }
}

proof fn lemma_entries_prefix(a: Seq<(Seq<char>, u64, u64)>, b: Seq<(Seq<char>, u64, u64)>, n: int, which: int)
    requires
        0 <= n <= a.len(),
    ensures
        entries_sum(a + b, n, which) == entries_sum(a, n, which),
    decreases n,
{
    if n > 0 {
        lemma_entries_prefix(a, b, n - 1, which);
        assert((a + b)[n - 1] == a[n - 1]);
    }
}

proof fn lemma_entries_of_counts(ms: Seq<ModelCount>, n: int)
    requires
        0 <= n <= ms.len(),
    ensures
        entries_sum(ms.map_values(|m: ModelCount| crate::views::count_view(m)), n, 0) == job_sum(ms.take(n)),
        entries_sum(ms.map_values(|m: ModelCount| crate::views::count_view(m)), n, 1) == mismatch_sum(ms.take(n)),
    decreases n,
{
    if n > 0 {
        lemma_entries_of_counts(ms, n - 1);
        assert(ms.take(n).drop_last() =~= ms.take(n - 1));
        assert(ms.take(n).last() == ms[n - 1]);
    }
}

proof fn lemma_entries_of_days(daily: Seq<DailyStats>, which: int)
    requires
        which == 0 || which == 1,
        forall|d: int| 0 <= d < daily.len() ==> (#[trigger] daily[d]).total_jobs == job_sum(daily[d].models@)
            && daily[d].mismatch_jobs == mismatch_sum(daily[d].models@),
    ensures
        entries_sum(crate::views::day_entries(daily), crate::views::day_entries(daily).len() as int, which) == days_sum(daily, which),
    decreases daily.len(),
{
    if daily.len() > 0 {
        let p = daily.drop_last();
        assert forall|d: int| 0 <= d < p.len() implies (#[trigger] p[d]).total_jobs == job_sum(p[d].models@)
            && p[d].mismatch_jobs == mismatch_sum(p[d].models@) by {
            assert(p[d] == daily[d]);
        }
        lemma_entries_of_days(p, which);
        let a = crate::views::day_entries(p);
        let ms = daily.last().models@;
        let b = ms.map_values(|m: ModelCount| crate::views::count_view(m));
        assert(crate::views::day_entries(daily) =~= a + b);
        lemma_entries_concat(a, b, b.len() as int, which);
        lemma_entries_of_counts(ms, ms.len() as int);
        assert(ms.take(ms.len() as int) =~= ms);
        assert(daily[daily.len() - 1] == daily.last());
        assert(daily.last().total_jobs == job_sum(ms));
        assert(daily.last().mismatch_jobs == mismatch_sum(ms));
    }
}

/// Summing by model keeps the window's totals: the per-model job counts add
/// up to the sum of the days' job totals, and likewise for mismatches,
/// whenever each day's totals are the sums of its own per-model counts (as
/// `aggregate` makes them).
pub proof fn lemma_window_totals(daily: Seq<DailyStats>, r: Seq<ModelCount>)
    requires
        crate::views::is_model_sum(r, daily),
        forall|d: int| 0 <= d < daily.len() ==> (#[trigger] daily[d]).total_jobs == job_sum(daily[d].models@)
            && daily[d].mismatch_jobs == mismatch_sum(daily[d].models@),
    ensures
        job_sum(r) == days_sum(daily, 0),
        mismatch_sum(r) == days_sum(daily, 1),
{
    let es = crate::views::day_entries(daily);
    let names = model_counts_view(r);
    lemma_counts_named(r, es);
    assert forall|k: int| 0 <= k < es.len() implies names.contains(#[trigger] es[k].0) by {}
    lemma_named_sum_total(es, es.len() as int, names, 0);
    lemma_named_sum_total(es, es.len() as int, names, 1);
    lemma_entries_of_days(daily, 0);
    lemma_entries_of_days(daily, 1);
}

} // verus!
