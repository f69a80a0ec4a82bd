//! Daily figures over a window of dates: from the stored rows, or from the
//! precomputed per-day aggregates where those exist.

use vstd::prelude::*;
use crate::domain::{aggregate, has_counted_model, is_aggregate, n_counted, n_mismatch, n_model, n_model_mismatch, AggRow};
use crate::schema::{DailyStats, ModelCount};
use crate::text::{lex_lt, lemma_lex_irreflexive, lemma_lex_total, lemma_lex_transitive, str_eq, str_lt};

verus! {

/// How a range's figures are grouped.
#[derive(Debug, Clone, Copy, PartialEq, Eq, Structural)]
pub enum GroupBy {
    Day,
    Model,
}

/// `day` (also when absent) or `model`; anything else is refused.
pub fn parse_group_by(p: Option<&str>) -> (r: Option<GroupBy>)
    ensures
        r == match p {
            None => Some(GroupBy::Day),
            Some(s) => if s@ == "day"@ {
                Some(GroupBy::Day)
            } else if s@ == "model"@ {
                Some(GroupBy::Model)
            } else {
                None
            },
        },
{
    match p {
        None => Some(GroupBy::Day),
        Some(s) => if str_eq(s, "day") {
            Some(GroupBy::Day)
        } else if str_eq(s, "model") {
            Some(GroupBy::Model)
        } else {
            None
        },
    }
}

/// Two row lists that read the same to `aggregate`.
pub open spec fn same_rows(a: Seq<AggRow>, b: Seq<AggRow>) -> bool {
    a.len() == b.len() && forall|i: int| 0 <= i < a.len() ==> (#[trigger] a[i]).model_no@ == b[i].model_no@
        && a[i].match_status@ == b[i].match_status@
}

proof fn lemma_same_counts(a: Seq<AggRow>, b: Seq<AggRow>, n: int, m: Seq<char>)
    requires
        same_rows(a, b),
        0 <= n <= a.len(),
    ensures
        n_counted(a, n) == n_counted(b, n),
        n_mismatch(a, n) == n_mismatch(b, n),
        n_model(a, n, m) == n_model(b, n, m),
        n_model_mismatch(a, n, m) == n_model_mismatch(b, n, m),
        has_counted_model(a, n, m) == has_counted_model(b, n, m),
    decreases n,
{
    if n > 0 {
        lemma_same_counts(a, b, n - 1, m);
        assert(a[n - 1].model_no@ == b[n - 1].model_no@);
    }
    if has_counted_model(a, n, m) {
        let i = choose|i: int| 0 <= i < n && i < a.len() && crate::domain::is_counted(a[i]) && a[i].model_no@ == m;
        assert(a[i].model_no@ == b[i].model_no@);
    }
    if has_counted_model(b, n, m) {
        let i = choose|i: int| 0 <= i < n && i < b.len() && crate::domain::is_counted(b[i]) && b[i].model_no@ == m;
        assert(a[i].model_no@ == b[i].model_no@);
    }
}

proof fn lemma_same_aggregate(r: DailyStats, d: Seq<char>, a: Seq<AggRow>, b: Seq<AggRow>)
    requires
        same_rows(a, b),
        is_aggregate(r, d, a),
    ensures
        is_aggregate(r, d, b),
{
    lemma_same_counts(a, b, a.len() as int, Seq::empty());
    assert forall|m: Seq<char>| crate::domain::model_counts_view(r.models@).contains(m) <==> has_counted_model(b, b.len() as int, m) by {
        lemma_same_counts(a, b, a.len() as int, m);
    }
    assert forall|k: int| 0 <= k < r.models@.len() implies (#[trigger] r.models@[k]).job_count == n_model(b, b.len() as int, r.models@[k].model_no@)
        && r.models@[k].mismatch_count == n_model_mismatch(b, b.len() as int, r.models@[k].model_no@) by {
        lemma_same_counts(a, b, a.len() as int, r.models@[k].model_no@);
    }
}

/// The rows of one date, in their order.
pub open spec fn rows_on(rows: Seq<(String, AggRow)>, d: Seq<char>) -> Seq<AggRow>
    decreases rows.len(),
{
    if rows.len() == 0 {
        Seq::empty()
    } else if rows.last().0@ == d {
        rows_on(rows.drop_last(), d).push(rows.last().1)
    } else {
        rows_on(rows.drop_last(), d)
    }
}

fn bucket(rows: &Vec<(String, AggRow)>, d: &String) -> (r: Vec<AggRow>)
    ensures
        same_rows(r@, rows_on(rows@, d@)),
{
    let mut out: Vec<AggRow> = Vec::new();
    let mut i: usize = 0;
    assert(rows@.take(0) =~= Seq::<(String, AggRow)>::empty());
    while i < rows.len()
        invariant
            i <= rows@.len(),
            same_rows(out@, rows_on(rows@.take(i as int), d@)),
        decreases rows.len() - i,
    {
        assert(rows@.take(i + 1).drop_last() =~= rows@.take(i as int));
        assert(rows@.take(i + 1).last() == rows@[i as int]);
        let e = &rows[i];
        if str_eq(e.0.as_str(), d.as_str()) {
            out.push(AggRow { model_no: e.1.model_no.clone(), match_status: e.1.match_status.clone() });
        }
        i = i + 1;
    }
    assert(rows@.take(rows@.len() as int) =~= rows@);
    out
}

/// One aggregate per requested date, from the rows carrying that date;
/// dates without rows come out as zero.
pub fn daily_from_rows(dates: &Vec<String>, rows: &Vec<(String, AggRow)>) -> (r: Vec<DailyStats>)
    ensures
        r@.len() == dates@.len(),
        forall|k: int| 0 <= k < dates@.len() ==> is_aggregate(#[trigger] r@[k], dates@[k]@, rows_on(rows@, dates@[k]@)),
{
    let mut out: Vec<DailyStats> = Vec::new();
    let mut k: usize = 0;
    while k < dates.len()
        invariant
            k <= dates@.len(),
            out@.len() == k,
            forall|j: int| 0 <= j < k ==> is_aggregate(#[trigger] out@[j], dates@[j]@, rows_on(rows@, dates@[j]@)),
        decreases dates.len() - k,
    {
        let b = bucket(rows, &dates[k]);
        let ghost bv = b@;
        let s = aggregate(dates[k].clone(), b);
        proof {
            lemma_same_aggregate(s, dates@[k as int]@, bv, rows_on(rows@, dates@[k as int]@));
        }
        out.push(s);
        k = k + 1;
    }
    out
}

pub open spec fn count_view(m: ModelCount) -> (Seq<char>, u64, u64) {
    (m.model_no@, m.job_count, m.mismatch_count)
}

/// What a day's figures say: date, totals and per-model counts.
pub open spec fn stats_view(s: DailyStats) -> (Seq<char>, u64, u64, Seq<(Seq<char>, u64, u64)>) {
    (s.work_date@, s.total_jobs, s.mismatch_jobs, s.models@.map_values(|m: ModelCount| count_view(m)))
}

pub fn copy_stats(s: &DailyStats) -> (r: DailyStats)
    ensures
        stats_view(r) == stats_view(*s),
{
    let mut models: Vec<ModelCount> = Vec::new();
    let mut i: usize = 0;
    while i < s.models.len()
        invariant
            i <= s.models@.len(),
            models@.map_values(|m: ModelCount| count_view(m)) == s.models@.take(i as int).map_values(|m: ModelCount| count_view(m)),
        decreases s.models.len() - i,
    {
        let m = &s.models[i];
        let ghost before = models@.map_values(|m: ModelCount| count_view(m));
        models.push(ModelCount { model_no: m.model_no.clone(), job_count: m.job_count, mismatch_count: m.mismatch_count });
        assert(models@.map_values(|m: ModelCount| count_view(m)) =~= before.push(count_view(*m)));
        assert(s.models@.take(i + 1).map_values(|m: ModelCount| count_view(m)) =~= s.models@.take(i as int).map_values(
            |m: ModelCount| count_view(m)).push(count_view(*m)));
        i = i + 1;
    }
    assert(s.models@.take(s.models@.len() as int) =~= s.models@);
    DailyStats {
        work_date: s.work_date.clone(),
        total_jobs: s.total_jobs,
        mismatch_jobs: s.mismatch_jobs,
        models,
    }
}

/// The last stored aggregate for date `d`, if any (a later one replaces an
/// earlier one).
pub open spec fn last_for(found: Seq<(String, DailyStats)>, d: Seq<char>) -> Option<int> {
    if exists|j: int| 0 <= j < found.len() && found[j].0@ == d {
        Some(choose|j: int| 0 <= j < found.len() && found[j].0@ == d && forall|l: int| j < l < found.len() ==> found[l].0@ != d)
    } else {
        None
    }
}

/// One entry per requested date: the stored aggregate of that date, or a
/// zero day when there is none.
pub fn daily_from_rollups(dates: &Vec<String>, found: &Vec<(String, DailyStats)>) -> (r: Vec<DailyStats>)
    ensures
        r@.len() == dates@.len(),
        forall|k: int|
            0 <= k < dates@.len() ==> match last_for(found@, dates@[k]@) {
                Some(j) => stats_view(#[trigger] r@[k]) == stats_view(found@[j].1),
                None => is_aggregate(r@[k], dates@[k]@, Seq::empty()),
            },
{
    let mut out: Vec<DailyStats> = Vec::new();
    let mut k: usize = 0;
    while k < dates.len()
        invariant
            k <= dates@.len(),
            out@.len() == k,
            forall|q: int|
                0 <= q < k ==> match last_for(found@, dates@[q]@) {
                    Some(j) => stats_view(#[trigger] out@[q]) == stats_view(found@[j].1),
                    None => is_aggregate(out@[q], dates@[q]@, Seq::empty()),
                },
        decreases dates.len() - k,
    {
        let d = &dates[k];
        let mut j: usize = found.len();
        while j > 0 && !str_eq(found[j - 1].0.as_str(), d.as_str())
            invariant
                j <= found@.len(),
                forall|l: int| j <= l < found@.len() ==> found@[l].0@ != d@,
            decreases j,
        {
            j = j - 1;
        }
        if j > 0 {
            let ghost w = (j - 1) as int;
            proof {
                assert(found@[w].0@ == d@);
                let c = choose|c: int| 0 <= c < found@.len() && found@[c].0@ == d@ && forall|l: int| c < l < found@.len() ==> found@[l].0@ != d@;
                if c < w {
                    assert(found@[w].0@ != d@);
                } else if c > w {
                    assert(found@[c].0@ != d@);
                }
                assert(last_for(found@, d@) == Some(w));
            }
            out.push(copy_stats(&found[j - 1].1));
        } else {
            proof {
                assert(!exists|c: int| 0 <= c < found@.len() && found@[c].0@ == d@);
            }
            let empty: Vec<AggRow> = Vec::new();
            let s = aggregate(d.clone(), empty);
            out.push(s);
        }
        k = k + 1;
    }
    out
}

/// Earliest and latest of some dates, in string order (as sorting them
/// would give first and last).
pub fn first_last(dates: &Vec<String>) -> (r: Option<(String, String)>)
    ensures
        match r {
            None => dates@.len() == 0,
            Some((a, b)) => (exists|i: int| 0 <= i < dates@.len() && dates@[i]@ == a@) && (exists|i: int|
                0 <= i < dates@.len() && dates@[i]@ == b@) && (forall|i: int|
                0 <= i < dates@.len() ==> !lex_lt(#[trigger] dates@[i]@, a@) && !lex_lt(b@, dates@[i]@)),
        },
{
    if dates.len() == 0 {
        return None;
    }
    let mut lo: usize = 0;
    let mut hi: usize = 0;
    let mut i: usize = 1;
    proof {
        lemma_lex_irreflexive(dates@[0]@);
    }
    while i < dates.len()
        invariant
            1 <= i <= dates@.len(),
            lo < i,
            hi < i,
            forall|q: int| 0 <= q < i ==> !lex_lt(#[trigger] dates@[q]@, dates@[lo as int]@) && !lex_lt(dates@[hi as int]@, dates@[q]@),
        decreases dates.len() - i,
    {
        let ghost old_lo = lo;
        let ghost old_hi = hi;
        if str_lt(dates[i].as_str(), dates[lo].as_str()) {
            lo = i;
        }
        if str_lt(dates[hi].as_str(), dates[i].as_str()) {
            hi = i;
        }
        proof {
            lemma_lex_irreflexive(dates@[i as int]@);
            assert forall|q: int| 0 <= q < i + 1 implies !lex_lt(#[trigger] dates@[q]@, dates@[lo as int]@) && !lex_lt(dates@[hi as int]@, dates@[q]@) by {
                if q < i {
                    if lo == i {
                        if lex_lt(dates@[q]@, dates@[i as int]@) {
                            lemma_lex_transitive(dates@[q]@, dates@[i as int]@, dates@[old_lo as int]@);
                        }
                    }
                    if hi == i {
                        if lex_lt(dates@[i as int]@, dates@[q]@) {
                            lemma_lex_transitive(dates@[old_hi as int]@, dates@[i as int]@, dates@[q]@);
                        }
                    }
                } else {
                    if lo != i && dates@[i as int]@ != dates@[lo as int]@ {
                        lemma_lex_total(dates@[i as int]@, dates@[lo as int]@);
                        if lex_lt(dates@[i as int]@, dates@[lo as int]@) {
                        }
                    }
                    if hi != i && dates@[i as int]@ != dates@[hi as int]@ {
                        lemma_lex_total(dates@[i as int]@, dates@[hi as int]@);
                    }
                }
            }
        }
        i = i + 1;
    }
    Some((dates[lo].clone(), dates[hi].clone()))
}

} // verus!
