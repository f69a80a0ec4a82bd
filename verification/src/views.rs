//! Read-side figures of the gateway computed from stored rows: the current
//! PLC/camera state, per-model totals over a window, the inputs of the
//! reconciliation and of the mixed-flow figures, job listing and export.

use vstd::prelude::*;
use crate::coredb::{keep_nonempty, nonempty, opt_str_view, positive};
use crate::domain::{states_view, timeline_upto, plc_timeline, CamEvent, PlcState};
use crate::jobs::{JobRow, JobView};
use crate::order::{is_stable_order, stable_order};
use crate::plc_state::{keep_positive, or_zero, PlcStateRow};
use crate::schema::{DailyStats, ModelCount, PlcCurrent};
use crate::text::{insert_sorted_distinct, str_eq, strictly_sorted, strings_view};

verus! {

/// `c` listed in the order `perm` gives.
pub open spec fn reorder<A>(c: Seq<A>, perm: Seq<usize>) -> Seq<A> {
    Seq::new(perm.len(), |k: int| c[perm[k] as int])
}

// ── reconciliation inputs ──────────────────────────────────────────────────

/// A PLC state taken from a `plc_only` row with a positive time and a model.
pub open spec fn plc_candidate(r: JobView) -> Option<(i64, Seq<char>)> {
    if r.match_status == "plc_only"@ {
        match (positive(r.plc_ts), nonempty(r.plc_model_no)) {
            (Some(t), Some(m)) => Some((t, m)),
            _ => None,
        }
    } else {
        None
    }
}

pub open spec fn plc_candidates(rows: Seq<JobView>) -> Seq<(i64, Seq<char>)>
    decreases rows.len(),
{
    if rows.len() == 0 {
        Seq::empty()
    } else {
        match plc_candidate(rows.last()) {
            Some(c) => plc_candidates(rows.drop_last()).push(c),
            None => plc_candidates(rows.drop_last()),
        }
    }
}

/// A camera reading to reconcile: a camera-side row (`camera_only`,
/// `matched` or `mismatch`) that no PLC time was paired with at the edge,
/// with a positive camera time and a model. Rows this reconciliation wrote
/// earlier qualify again, so a rerun recomputes them.
pub open spec fn cam_candidate(r: JobView, confident: bool) -> Option<(Seq<char>, i64, Seq<char>, bool)> {
    if (r.match_status == "camera_only"@ || r.match_status == "matched"@ || r.match_status == "mismatch"@)
        && or_zero(r.plc_ts) == 0 {
        match (positive(r.camera_ts), nonempty(r.camera_model_no)) {
            (Some(t), Some(m)) => Some((r.event_id, t, m, confident)),
            _ => None,
        }
    } else {
        None
    }
}

pub open spec fn cam_candidates(rows: Seq<JobView>, confident: Seq<bool>) -> Seq<(Seq<char>, i64, Seq<char>, bool)>
    decreases rows.len(),
{
    if rows.len() == 0 {
        Seq::empty()
    } else {
        match cam_candidate(rows.last(), confident[rows.len() - 1]) {
            Some(c) => cam_candidates(rows.drop_last(), confident).push(c),
            None => cam_candidates(rows.drop_last(), confident),
        }
    }
}

pub open spec fn rows_view(rows: Seq<JobRow>) -> Seq<JobView> {
    rows.map_values(|r: JobRow| r@)
}

pub open spec fn ts_keys<A>(c: Seq<(i64, A)>) -> Seq<i64> {
    c.map_values(|x: (i64, A)| x.0)
}

pub open spec fn cam_keys(c: Seq<(Seq<char>, i64, Seq<char>, bool)>) -> Seq<i64> {
    c.map_values(|x: (Seq<char>, i64, Seq<char>, bool)| x.1)
}

pub open spec fn cams_view(v: Seq<CamEvent>) -> Seq<(Seq<char>, i64, Seq<char>, bool)> {
    v.map_values(|c: CamEvent| (c.event_id@, c.ts_ms, c.model_no@, c.confident))
}

/// `out` is `c` in stable time order.
pub open spec fn stably_sorted_states(c: Seq<(i64, Seq<char>)>, out: Seq<PlcState>) -> bool {
    exists|perm: Seq<usize>| is_stable_order(ts_keys(c), perm) && states_view(out) == reorder(c, perm)
}

pub open spec fn stably_sorted_cams(c: Seq<(Seq<char>, i64, Seq<char>, bool)>, out: Seq<CamEvent>) -> bool {
    exists|perm: Seq<usize>| is_stable_order(cam_keys(c), perm) && cams_view(out) == reorder(c, perm)
}

fn sorted_plc_events(rows: &Vec<JobRow>) -> (r: Vec<PlcState>)
    ensures
        stably_sorted_states(plc_candidates(rows_view(rows@)), r@),
{
    let ghost rv = rows_view(rows@);
    let mut cands: Vec<PlcState> = Vec::new();
    let mut keys: Vec<i64> = Vec::new();
    let mut i: usize = 0;
    assert(rv.take(0) =~= Seq::<JobView>::empty());
    while i < rows.len()
        invariant
            i <= rows@.len(),
            rv == rows_view(rows@),
            states_view(cands@) == plc_candidates(rv.take(i as int)),
            keys@ == ts_keys(plc_candidates(rv.take(i as int))),
        decreases rows.len() - i,
    {
        let r = &rows[i];
        proof {
            assert(rv.take(i + 1).drop_last() =~= rv.take(i as int));
            assert(rv.take(i + 1).last() == r@);
        }
        if str_eq(r.match_status.as_str(), "plc_only") {
            let t = keep_positive(r.plc_ts);
            let m = keep_nonempty(r.plc_model_no.clone());
            if let (Some(t), Some(m)) = (t, m) {
                let ghost before = states_view(cands@);
                let ghost kb = keys@;
                cands.push(PlcState { ts_ms: t, model_no: m });
                keys.push(t);
                assert(states_view(cands@) =~= before.push((t, cands@.last().model_no@)));
                assert(keys@ =~= ts_keys(before.push((t, cands@.last().model_no@))));
            }
        }
        i = i + 1;
    }
    assert(rv.take(rows@.len() as int) =~= rv);
    let perm = stable_order(&keys);
    let ghost c = states_view(cands@);
    let mut out: Vec<PlcState> = Vec::new();
    let mut k: usize = 0;
    while k < perm.len()
        invariant
            k <= perm@.len(),
            c == states_view(cands@),
            c == plc_candidates(rv),
            keys@ == ts_keys(c),
            is_stable_order(keys@, perm@),
            states_view(out@) == reorder(c, perm@).take(k as int),
        decreases perm.len() - k,
    {
        let j = perm[k];
        assert(perm@[k as int] < keys@.len());
        let e = &cands[j];
        let ghost before = states_view(out@);
        out.push(PlcState { ts_ms: e.ts_ms, model_no: e.model_no.clone() });
        assert(c[j as int] == (e.ts_ms, e.model_no@));
        assert(states_view(out@) =~= before.push(c[j as int]));
        assert(states_view(out@) =~= reorder(c, perm@).take(k + 1));
        k = k + 1;
    }
    assert(reorder(c, perm@).take(perm@.len() as int) =~= reorder(c, perm@));
    assert(is_stable_order(ts_keys(c), perm@) && states_view(out@) == reorder(c, perm@));
    out
}

fn sorted_cam_events(rows: &Vec<JobRow>, confident: &Vec<bool>) -> (r: Vec<CamEvent>)
    requires
        confident@.len() == rows@.len(),
    ensures
        stably_sorted_cams(cam_candidates(rows_view(rows@), confident@), r@),
{
    let ghost rv = rows_view(rows@);
    let mut cands: Vec<CamEvent> = Vec::new();
    let mut keys: Vec<i64> = Vec::new();
    let mut i: usize = 0;
    assert(rv.take(0) =~= Seq::<JobView>::empty());
    while i < rows.len()
        invariant
            i <= rows@.len(),
            confident@.len() == rows@.len(),
            rv == rows_view(rows@),
            cams_view(cands@) == cam_candidates(rv.take(i as int), confident@),
            keys@ == cam_keys(cam_candidates(rv.take(i as int), confident@)),
        decreases rows.len() - i,
    {
        let r = &rows[i];
        proof {
            assert(rv.take(i + 1).drop_last() =~= rv.take(i as int));
            assert(rv.take(i + 1).last() == r@);
            assert(rv.take(i + 1).len() - 1 == i);
        }
        let st = r.match_status.as_str();
        let camera_side = str_eq(st, "camera_only") || str_eq(st, "matched") || str_eq(st, "mismatch");
        let no_plc = match r.plc_ts {
            Some(t) => t == 0,
            None => true,
        };
        if camera_side && no_plc {
            let t = keep_positive(r.camera_ts);
            let m = keep_nonempty(r.camera_model_no.clone());
            if let (Some(t), Some(m)) = (t, m) {
                let ghost before = cams_view(cands@);
                cands.push(CamEvent { event_id: r.event_id.clone(), ts_ms: t, model_no: m, confident: confident[i] });
                keys.push(t);
                assert(cams_view(cands@) =~= before.push(cams_view(cands@).last()));
                assert(keys@ =~= cam_keys(before.push(cams_view(cands@).last())));
            }
        }
        i = i + 1;
    }
    assert(rv.take(rows@.len() as int) =~= rv);
    let perm = stable_order(&keys);
    let ghost c = cams_view(cands@);
    let mut out: Vec<CamEvent> = Vec::new();
    let mut k: usize = 0;
    while k < perm.len()
        invariant
            k <= perm@.len(),
            c == cams_view(cands@),
            keys@ == cam_keys(c),
            is_stable_order(keys@, perm@),
            cams_view(out@) == reorder(c, perm@).take(k as int),
        decreases perm.len() - k,
    {
        let j = perm[k];
        assert(perm@[k as int] < keys@.len());
        let e = &cands[j];
        let ghost before = cams_view(out@);
        out.push(CamEvent { event_id: e.event_id.clone(), ts_ms: e.ts_ms, model_no: e.model_no.clone(), confident: e.confident });
        assert(c[j as int] == (e.event_id@, e.ts_ms, e.model_no@, e.confident));
        assert(cams_view(out@) =~= before.push(c[j as int]));
        assert(cams_view(out@) =~= reorder(c, perm@).take(k + 1));
        k = k + 1;
    }
    assert(reorder(c, perm@).take(perm@.len() as int) =~= reorder(c, perm@));
    assert(is_stable_order(cam_keys(c), perm@) && cams_view(out@) == reorder(c, perm@));
    out
}

/// The two inputs of the reconciliation from one day's rows: the PLC
/// timeline (states in time order, repeats compressed) and the camera
/// readings in time order. `confident[i]` says whether row `i`'s camera
/// confidence reached the threshold.
pub fn reconcile_inputs(rows: &Vec<JobRow>, confident: &Vec<bool>) -> (r: (Vec<PlcState>, Vec<CamEvent>))
    requires
        confident@.len() == rows@.len(),
    ensures
        exists|ev: Seq<PlcState>| stably_sorted_states(plc_candidates(rows_view(rows@)), ev)
            && states_view(r.0@) == timeline_upto(ev, ev.len() as int),
        stably_sorted_cams(cam_candidates(rows_view(rows@), confident@), r.1@),
{
    let events = sorted_plc_events(rows);
    let timeline = plc_timeline(events.as_slice());
    let cams = sorted_cam_events(rows, confident);
    assert(stably_sorted_states(plc_candidates(rows_view(rows@)), events@)
        && states_view(timeline@) == timeline_upto(events@, events@.len() as int));
    (timeline, cams)
}


// ── mixed-flow order ───────────────────────────────────────────────────────

/// A car in the production order: counted rows only (not `plc_only`, as in
/// the daily totals), timed by the camera, else the PLC, and modelled by the
/// camera, else the PLC.
pub open spec fn mix_entry(r: JobView) -> Option<(i64, Seq<char>)> {
    if r.match_status != "plc_only"@ {
        let ts = match positive(r.camera_ts) {
            Some(t) => Some(t),
            None => positive(r.plc_ts),
        };
        let m = match nonempty(r.camera_model_no) {
            Some(m) => Some(m),
            None => nonempty(r.plc_model_no),
        };
        match (ts, m) {
            (Some(t), Some(m)) => Some((t, m)),
            _ => None,
        }
    } else {
        None
    }
}

pub open spec fn mix_entries(rows: Seq<JobView>) -> Seq<(i64, Seq<char>)>
    decreases rows.len(),
{
    if rows.len() == 0 {
        Seq::empty()
    } else {
        match mix_entry(rows.last()) {
            Some(c) => mix_entries(rows.drop_last()).push(c),
            None => mix_entries(rows.drop_last()),
        }
    }
}

pub open spec fn pairs_view(v: Seq<(i64, String)>) -> Seq<(i64, Seq<char>)> {
    v.map_values(|p: (i64, String)| (p.0, p.1@))
}

/// The production order of a day's rows, in stable time order.
pub fn mix_sequence(rows: &Vec<JobRow>) -> (r: Vec<(i64, String)>)
    ensures
        exists|perm: Seq<usize>| is_stable_order(ts_keys(mix_entries(rows_view(rows@))), perm)
            && pairs_view(r@) == reorder(mix_entries(rows_view(rows@)), perm),
{
    let ghost rv = rows_view(rows@);
    let mut cands: Vec<(i64, String)> = Vec::new();
    let mut keys: Vec<i64> = Vec::new();
    let mut i: usize = 0;
    assert(rv.take(0) =~= Seq::<JobView>::empty());
    while i < rows.len()
        invariant
            i <= rows@.len(),
            rv == rows_view(rows@),
            pairs_view(cands@) == mix_entries(rv.take(i as int)),
            keys@ == ts_keys(mix_entries(rv.take(i as int))),
        decreases rows.len() - i,
    {
        let r = &rows[i];
        proof {
            assert(rv.take(i + 1).drop_last() =~= rv.take(i as int));
            assert(rv.take(i + 1).last() == r@);
        }
        if !str_eq(r.match_status.as_str(), "plc_only") {
            let ts = match keep_positive(r.camera_ts) {
                Some(t) => Some(t),
                None => keep_positive(r.plc_ts),
            };
            let m = match keep_nonempty(r.camera_model_no.clone()) {
                Some(m) => Some(m),
                None => keep_nonempty(r.plc_model_no.clone()),
            };
            if let (Some(t), Some(m)) = (ts, m) {
                let ghost before = pairs_view(cands@);
                cands.push((t, m));
                keys.push(t);
                assert(pairs_view(cands@) =~= before.push(pairs_view(cands@).last()));
                assert(keys@ =~= ts_keys(before.push(pairs_view(cands@).last())));
            }
        }
        i = i + 1;
    }
    assert(rv.take(rows@.len() as int) =~= rv);
    let perm = stable_order(&keys);
    let ghost c = pairs_view(cands@);
    let mut out: Vec<(i64, String)> = Vec::new();
    let mut k: usize = 0;
    while k < perm.len()
        invariant
            k <= perm@.len(),
            c == pairs_view(cands@),
            keys@ == ts_keys(c),
            is_stable_order(keys@, perm@),
            pairs_view(out@) == reorder(c, perm@).take(k as int),
        decreases perm.len() - k,
    {
        let j = perm[k];
        assert(perm@[k as int] < keys@.len());
        let e = &cands[j];
        let ghost before = pairs_view(out@);
        out.push((e.0, e.1.clone()));
        assert(c[j as int] == (e.0, e.1@));
        assert(pairs_view(out@) =~= before.push(c[j as int]));
        assert(pairs_view(out@) =~= reorder(c, perm@).take(k + 1));
        k = k + 1;
    }
    assert(reorder(c, perm@).take(perm@.len() as int) =~= reorder(c, perm@));
    assert(is_stable_order(ts_keys(c), perm@) && pairs_view(out@) == reorder(c, perm@));
    out
}

// ── latest of a kind ───────────────────────────────────────────────────────

/// `i` is the element `max_by_key` picks among the eligible positions: a
/// largest key, and the last one when several share it.
pub open spec fn is_last_max(keys: Seq<i64>, elig: Seq<bool>, i: int) -> bool {
    &&& 0 <= i < keys.len()
    &&& elig[i]
    &&& forall|j: int| 0 <= j < keys.len() && elig[j] ==> keys[j] <= keys[i]
    &&& forall|j: int| i < j < keys.len() && elig[j] ==> keys[j] < keys[i]
}

pub open spec fn none_eligible(elig: Seq<bool>) -> bool {
    forall|j: int| 0 <= j < elig.len() ==> !elig[j]
}

pub fn last_max(keys: &Vec<i64>, elig: &Vec<bool>) -> (r: Option<usize>)
    requires
        keys@.len() == elig@.len(),
    ensures
        match r {
            Some(i) => is_last_max(keys@, elig@, i as int),
            None => none_eligible(elig@),
        },
{
    let mut best: Option<usize> = None;
    let mut i: usize = 0;
    while i < keys.len()
        invariant
            keys@.len() == elig@.len(),
            i <= keys@.len(),
            match best {
                Some(b) => b < i && elig@[b as int] && (forall|j: int| 0 <= j < i && elig@[j] ==> keys@[j]
                    <= keys@[b as int]) && (forall|j: int| b < j < i && elig@[j] ==> keys@[j] < keys@[b as int]),
                None => forall|j: int| 0 <= j < i ==> !elig@[j],
            },
        decreases keys.len() - i,
    {
        if elig[i] {
            match best {
                None => {
                    best = Some(i);
                },
                Some(b) => {
                    if keys[i] >= keys[b] {
                        best = Some(i);
                    }
                },
            }
        }
        i = i + 1;
    }
    best
}

pub open spec fn has_model(o: Option<Seq<char>>) -> bool {
    nonempty(o) is Some
}

/// Key of a row's PLC reading: its PLC time, else when it was stored.
pub open spec fn plc_key(r: JobView) -> i64 {
    match r.plc_ts {
        Some(t) => t,
        None => r.created_at,
    }
}

pub open spec fn cam_key(r: JobView) -> i64 {
    match r.camera_ts {
        Some(t) => t,
        None => r.created_at,
    }
}

pub open spec fn plc_current_view(c: PlcCurrent) -> (Option<Seq<char>>, Option<Seq<char>>, Option<i64>, Option<Seq<char>>, Option<Seq<char>>, Option<i64>) {
    (opt_str_view(c.model_no), opt_str_view(c.edge_id), c.plc_ts, opt_str_view(c.event_id), opt_str_view(
        c.camera_model_no,
    ), c.camera_ts)
}

/// The current state from a day's rows: the PLC side from the latest row
/// with a PLC model, the camera side from the latest row with a camera model.
pub open spec fn current_from_rows(rows: Seq<JobView>, p: Option<int>, c: Option<int>) -> (Option<Seq<char>>, Option<Seq<char>>, Option<i64>, Option<Seq<char>>, Option<Seq<char>>, Option<i64>) {
    (
        match p { Some(i) => rows[i].plc_model_no, None => None },
        match p { Some(i) => Some(rows[i].edge_id), None => None },
        match p { Some(i) => rows[i].plc_ts, None => None },
        match p { Some(i) => Some(rows[i].event_id), None => None },
        match c { Some(i) => rows[i].camera_model_no, None => None },
        match c { Some(i) => rows[i].camera_ts, None => None },
    )
}

pub open spec fn plc_keys(rows: Seq<JobView>) -> Seq<i64> {
    rows.map_values(|r: JobView| plc_key(r))
}

pub open spec fn cam_keys_of(rows: Seq<JobView>) -> Seq<i64> {
    rows.map_values(|r: JobView| cam_key(r))
}

pub open spec fn plc_elig(rows: Seq<JobView>) -> Seq<bool> {
    rows.map_values(|r: JobView| has_model(r.plc_model_no))
}

pub open spec fn cam_elig(rows: Seq<JobView>) -> Seq<bool> {
    rows.map_values(|r: JobView| has_model(r.camera_model_no))
}

pub open spec fn picks(keys: Seq<i64>, elig: Seq<bool>, o: Option<int>) -> bool {
    match o {
        Some(i) => is_last_max(keys, elig, i),
        None => none_eligible(elig),
    }
}

pub fn latest_plc_state_from_rows(rows: &Vec<JobRow>) -> (r: PlcCurrent)
    ensures
        exists|p: Option<int>, c: Option<int>|
            picks(plc_keys(rows_view(rows@)), plc_elig(rows_view(rows@)), p) && picks(
                cam_keys_of(rows_view(rows@)),
                cam_elig(rows_view(rows@)),
                c,
            ) && plc_current_view(r) == current_from_rows(rows_view(rows@), p, c),
{
    let ghost rv = rows_view(rows@);
    let mut pk: Vec<i64> = Vec::new();
    let mut pe: Vec<bool> = Vec::new();
    let mut ck: Vec<i64> = Vec::new();
    let mut ce: Vec<bool> = Vec::new();
    let mut i: usize = 0;
    while i < rows.len()
        invariant
            i <= rows@.len(),
            rv == rows_view(rows@),
            pk@ == plc_keys(rv).take(i as int),
            pe@ == plc_elig(rv).take(i as int),
            ck@ == cam_keys_of(rv).take(i as int),
            ce@ == cam_elig(rv).take(i as int),
        decreases rows.len() - i,
    {
        let r = &rows[i];
        pk.push(match r.plc_ts {
            Some(t) => t,
            None => r.created_at,
        });
        pe.push(match &r.plc_model_no {
            Some(m) => !m.as_str().is_empty(),
            None => false,
        });
        ck.push(match r.camera_ts {
            Some(t) => t,
            None => r.created_at,
        });
        ce.push(match &r.camera_model_no {
            Some(m) => !m.as_str().is_empty(),
            None => false,
        });
        assert(pk@ =~= plc_keys(rv).take(i + 1));
        assert(pe@ =~= plc_elig(rv).take(i + 1));
        assert(ck@ =~= cam_keys_of(rv).take(i + 1));
        assert(ce@ =~= cam_elig(rv).take(i + 1));
        i = i + 1;
    }
    assert(plc_keys(rv).take(rv.len() as int) =~= plc_keys(rv));
    assert(plc_elig(rv).take(rv.len() as int) =~= plc_elig(rv));
    assert(cam_keys_of(rv).take(rv.len() as int) =~= cam_keys_of(rv));
    assert(cam_elig(rv).take(rv.len() as int) =~= cam_elig(rv));
    let p = last_max(&pk, &pe);
    let c = last_max(&ck, &ce);
    let ghost gp: Option<int> = match p { Some(x) => Some(x as int), None => None };
    let ghost gc: Option<int> = match c { Some(x) => Some(x as int), None => None };
    let (model_no, edge_id, plc_ts, event_id) = match p {
        Some(i) => {
            let r = &rows[i];
            (r.plc_model_no.clone(), Some(r.edge_id.clone()), r.plc_ts, Some(r.event_id.clone()))
        },
        None => (None, None, None, None),
    };
    let (camera_model_no, camera_ts) = match c {
        Some(i) => {
            let r = &rows[i];
            (r.camera_model_no.clone(), r.camera_ts)
        },
        None => (None, None),
    };
    let out = PlcCurrent { model_no, edge_id, plc_ts, event_id, camera_model_no, camera_ts };
    assert(picks(plc_keys(rv), plc_elig(rv), gp) && picks(cam_keys_of(rv), cam_elig(rv), gc)
        && plc_current_view(out) == current_from_rows(rv, gp, gc));
    out
}


pub open spec fn state_key(s: PlcStateRow) -> i64 {
    match s.plc_ts {
        Some(t) => t,
        None => s.updated_at,
    }
}

pub open spec fn state_keys(v: Seq<PlcStateRow>) -> Seq<i64> {
    v.map_values(|s: PlcStateRow| state_key(s))
}

pub open spec fn all_true(n: nat) -> Seq<bool> {
    Seq::new(n, |i: int| true)
}

/// The current state from the per-edge state rows: the edge polled most
/// recently (by PLC time, else by update time; the last of equals), or
/// `None` when there are no rows.
pub fn plc_current_from_states(states: &Vec<PlcStateRow>) -> (r: Option<PlcCurrent>)
    ensures
        match r {
            None => states@.len() == 0,
            Some(c) => exists|i: int| is_last_max(state_keys(states@), all_true(states@.len()), i)
                && plc_current_view(c) == (
                    opt_str_view(states@[i].model_no),
                    Some(states@[i].edge_id@),
                    states@[i].plc_ts,
                    None::<Seq<char>>,
                    opt_str_view(states@[i].camera_model_no),
                    states@[i].camera_ts,
                ),
        },
{
    let mut keys: Vec<i64> = Vec::new();
    let mut elig: Vec<bool> = Vec::new();
    let mut i: usize = 0;
    while i < states.len()
        invariant
            i <= states@.len(),
            keys@ == state_keys(states@).take(i as int),
            elig@ == all_true(states@.len()).take(i as int),
        decreases states.len() - i,
    {
        let s = &states[i];
        keys.push(match s.plc_ts {
            Some(t) => t,
            None => s.updated_at,
        });
        elig.push(true);
        assert(keys@ =~= state_keys(states@).take(i + 1));
        assert(elig@ =~= all_true(states@.len()).take(i + 1));
        i = i + 1;
    }
    assert(keys@ =~= state_keys(states@));
    assert(elig@ =~= all_true(states@.len()));
    match last_max(&keys, &elig) {
        None => {
            if states.len() > 0 {
                assert(elig@[0]);
            }
            None
        },
        Some(i) => {
            let s = &states[i];
            let c = PlcCurrent {
                model_no: s.model_no.clone(),
                edge_id: Some(s.edge_id.clone()),
                plc_ts: s.plc_ts,
                event_id: None,
                camera_model_no: s.camera_model_no.clone(),
                camera_ts: s.camera_ts,
            };
            assert(is_last_max(state_keys(states@), all_true(states@.len()), i as int));
            Some(c)
        },
    }
}

/// A recipe row counts for the current recipe: received on `today`, and
/// from `edge` when one is asked for.
pub open spec fn recipe_eligible(x: crate::recipes::RecipeRow, edge: Option<&str>, today: &str) -> bool {
    &&& x.work_date@ == today@
    &&& match edge {
        Some(e) => x.edge_id@ == e@,
        None => true,
    }
}

/// The recipe in force: among the rows received on `today` (and of `edge`
/// when one is asked for), the one received last (the last of equals).
pub fn latest_recipe(rows: &Vec<crate::recipes::RecipeRow>, edge: Option<&str>, today: &str) -> (r: Option<usize>)
    ensures
        match r {
            Some(i) => is_last_max(
                rows@.map_values(|x: crate::recipes::RecipeRow| x.received_at),
                rows@.map_values(|x: crate::recipes::RecipeRow| recipe_eligible(x, edge, today)),
                i as int,
            ),
            None => none_eligible(
                rows@.map_values(|x: crate::recipes::RecipeRow| recipe_eligible(x, edge, today)),
            ),
        },
{
    let ghost ks = rows@.map_values(|x: crate::recipes::RecipeRow| x.received_at);
    let ghost es = rows@.map_values(|x: crate::recipes::RecipeRow| recipe_eligible(x, edge, today));
    let mut keys: Vec<i64> = Vec::new();
    let mut elig: Vec<bool> = Vec::new();
    let mut i: usize = 0;
    while i < rows.len()
        invariant
            i <= rows@.len(),
            ks == rows@.map_values(|x: crate::recipes::RecipeRow| x.received_at),
            es == rows@.map_values(|x: crate::recipes::RecipeRow| recipe_eligible(x, edge, today)),
            keys@ == ks.take(i as int),
            elig@ == es.take(i as int),
        decreases rows.len() - i,
    {
        keys.push(rows[i].received_at);
        let on_day = str_eq(rows[i].work_date.as_str(), today);
        let of_edge = match edge {
            Some(e) => str_eq(rows[i].edge_id.as_str(), e),
            None => true,
        };
        elig.push(on_day && of_edge);
        assert(keys@ =~= ks.take(i + 1));
        assert(elig@ =~= es.take(i + 1));
        i = i + 1;
    }
    assert(keys@ =~= ks);
    assert(elig@ =~= es);
    last_max(&keys, &elig)
}

/// The first stored row with the given event id.
pub fn find_job(rows: &Vec<JobRow>, event_id: &str) -> (r: Option<usize>)
    ensures
        match r {
            Some(i) => i < rows@.len() && rows@[i as int].event_id@ == event_id@ && forall|j: int|
                0 <= j < i ==> rows@[j].event_id@ != event_id@,
            None => forall|j: int| 0 <= j < rows@.len() ==> rows@[j].event_id@ != event_id@,
        },
{
    let mut i: usize = 0;
    while i < rows.len()
        invariant
            i <= rows@.len(),
            forall|j: int| 0 <= j < i ==> rows@[j].event_id@ != event_id@,
        decreases rows.len() - i,
    {
        if str_eq(rows[i].event_id.as_str(), event_id) {
            return Some(i);
        }
        i = i + 1;
    }
    None
}

// ── listing and export ─────────────────────────────────────────────────────

/// A row passes the listing filters: the model filter matches either side's
/// model, the status filter the status exactly.
pub open spec fn job_passes(r: JobView, model: Option<Seq<char>>, status: Option<Seq<char>>) -> bool {
    (match model {
        Some(m) => r.plc_model_no == Some(m) || r.camera_model_no == Some(m),
        None => true,
    }) && (match status {
        Some(s) => r.match_status == s,
        None => true,
    })
}

pub open spec fn opt_ref_view(o: Option<&str>) -> Option<Seq<char>> {
    match o {
        Some(s) => Some(s@),
        None => None,
    }
}

pub fn job_matches(r: &JobRow, model: Option<&str>, status: Option<&str>) -> (b: bool)
    ensures
        b == job_passes(r@, opt_ref_view(model), opt_ref_view(status)),
{
    let m_ok = match model {
        Some(m) => (match &r.plc_model_no {
            Some(p) => str_eq(p.as_str(), m),
            None => false,
        }) || (match &r.camera_model_no {
            Some(c) => str_eq(c.as_str(), m),
            None => false,
        }),
        None => true,
    };
    let s_ok = match status {
        Some(s) => str_eq(r.match_status.as_str(), s),
        None => true,
    };
    m_ok && s_ok
}

/// Positions of the rows that pass the filters, in order.
pub fn filter_jobs(rows: &Vec<JobRow>, model: Option<&str>, status: Option<&str>) -> (r: Vec<usize>)
    ensures
        forall|k: int| 0 <= k < r@.len() ==> #[trigger] r@[k] < rows@.len() && job_passes(
            rows@[r@[k] as int]@,
            opt_ref_view(model),
            opt_ref_view(status),
        ),
        forall|k: int, l: int| 0 <= k < l < r@.len() ==> #[trigger] r@[k] < #[trigger] r@[l],
        forall|j: int| 0 <= j < rows@.len() && job_passes(rows@[j]@, opt_ref_view(model), opt_ref_view(status))
            ==> r@.contains(j as usize),
{
    let mut out: Vec<usize> = Vec::new();
    let mut i: usize = 0;
    while i < rows.len()
        invariant
            i <= rows@.len(),
            forall|k: int| 0 <= k < out@.len() ==> #[trigger] out@[k] < i && job_passes(
                rows@[out@[k] as int]@,
                opt_ref_view(model),
                opt_ref_view(status),
            ),
            forall|k: int, l: int| 0 <= k < l < out@.len() ==> #[trigger] out@[k] < #[trigger] out@[l],
            forall|j: int| 0 <= j < i && job_passes(rows@[j]@, opt_ref_view(model), opt_ref_view(status))
                ==> out@.contains(j as usize),
        decreases rows.len() - i,
    {
        if job_matches(&rows[i], model, status) {
            let ghost before = out@;
            out.push(i);
            assert forall|j: int| 0 <= j < i + 1 && job_passes(rows@[j]@, opt_ref_view(model), opt_ref_view(status))
                implies out@.contains(j as usize) by {
                if j < i {
                    let k = choose|k: int| 0 <= k < before.len() && before[k] == j as usize;
                    assert(out@[k] == j as usize);
                } else {
                    assert(out@[out@.len() - 1] == j as usize);
                }
            }
        }
        i = i + 1;
    }
    out
}

/// The slice of a filtered listing one page shows: `[start, end)`.
pub fn page_window(total: usize, page: usize, per_page: usize) -> (r: (usize, usize))
    ensures
        r.0 == (if page * per_page < total { page * per_page } else { total as int }),
        r.1 == (if r.0 + per_page < total { r.0 + per_page } else { total as int }),
        r.0 <= r.1 <= total,
        r.1 - r.0 <= per_page,
{
    let start = match page.checked_mul(per_page) {
        Some(p) => if p < total {
            p
        } else {
            total
        },
        None => total,
    };
    let end = if per_page < total - start {
        start + per_page
    } else {
        total
    };
    (start, end)
}


// ── totals over a window ───────────────────────────────────────────────────

pub open spec fn count_view(m: ModelCount) -> (Seq<char>, u64, u64) {
    (m.model_no@, m.job_count, m.mismatch_count)
}

/// Every day's per-model entries, day after day.
pub open spec fn day_entries(daily: Seq<DailyStats>) -> Seq<(Seq<char>, u64, u64)>
    decreases daily.len(),
{
    if daily.len() == 0 {
        Seq::empty()
    } else {
        day_entries(daily.drop_last()) + daily.last().models@.map_values(|m: ModelCount| count_view(m))
    }
}

/// Sum of the job counts (`which == 0`) or mismatch counts (otherwise) of
/// the first `n` entries for model `m`.
pub open spec fn model_sum(es: Seq<(Seq<char>, u64, u64)>, n: int, m: Seq<char>, which: int) -> int
    decreases n,
{
    if n <= 0 || n > es.len() {
        0
    } else {
        model_sum(es, n - 1, m, which) + if es[n - 1].0 == m {
            if which == 0 {
                es[n - 1].1 as int
            } else {
                es[n - 1].2 as int
            }
        } else {
            0
        }
    }
}

proof fn lemma_model_sum_mono(es: Seq<(Seq<char>, u64, u64)>, a: int, b: int, m: Seq<char>, which: int)
    requires
        0 <= a <= b <= es.len(),
    ensures
        0 <= model_sum(es, a, m, which) <= model_sum(es, b, m, which),
    decreases b,
{
    if b > 0 {
        if a == b {
            lemma_model_sum_mono(es, b - 1, b - 1, m, which);
        } else {
            lemma_model_sum_mono(es, a, b - 1, m, which);
        }
    }
}

fn flatten_counts(daily: &Vec<DailyStats>) -> (r: Vec<(String, u64, u64)>)
    ensures
        r@.map_values(|t: (String, u64, u64)| (t.0@, t.1, t.2)) == day_entries(daily@),
{
    let mut out: Vec<(String, u64, u64)> = Vec::new();
    let mut d: usize = 0;
    assert(daily@.take(0) =~= Seq::<DailyStats>::empty());
    while d < daily.len()
        invariant
            d <= daily@.len(),
            out@.map_values(|t: (String, u64, u64)| (t.0@, t.1, t.2)) == day_entries(daily@.take(d as int)),
        decreases daily.len() - d,
    {
        let ms = &daily[d].models;
        let ghost base = day_entries(daily@.take(d as int));
        let mut k: usize = 0;
        while k < ms.len()
            invariant
                k <= ms@.len(),
                out@.map_values(|t: (String, u64, u64)| (t.0@, t.1, t.2)) == base + ms@.take(k as int).map_values(
                    |m: ModelCount| count_view(m),
                ),
            decreases ms.len() - k,
        {
            let m = &ms[k];
            let ghost before = out@.map_values(|t: (String, u64, u64)| (t.0@, t.1, t.2));
            out.push((m.model_no.clone(), m.job_count, m.mismatch_count));
            assert(out@.map_values(|t: (String, u64, u64)| (t.0@, t.1, t.2)) =~= before.push(count_view(*m)));
            assert(ms@.take(k + 1).map_values(|m: ModelCount| count_view(m)) =~= ms@.take(k as int).map_values(
                |m: ModelCount| count_view(m)).push(count_view(*m)));
            assert(out@.map_values(|t: (String, u64, u64)| (t.0@, t.1, t.2)) =~= base + ms@.take(k + 1).map_values(
                |m: ModelCount| count_view(m),
            ));
            k = k + 1;
        }
        assert(ms@.take(ms@.len() as int) =~= ms@);
        assert(daily@.take(d + 1).drop_last() =~= daily@.take(d as int));
        assert(daily@.take(d + 1).last() == daily@[d as int]);
        d = d + 1;
    }
    assert(daily@.take(daily@.len() as int) =~= daily@);
    out
}

/// `r` holds one entry per model named on any day, in ascending order,
/// with that model's job and mismatch counts summed over the days.
pub open spec fn is_model_sum(r: Seq<ModelCount>, daily: Seq<DailyStats>) -> bool {
    &&& strictly_sorted(crate::domain::model_counts_view(r))
    &&& forall|m: Seq<char>|
        crate::domain::model_counts_view(r).contains(m) <==> exists|k: int|
            0 <= k < day_entries(daily).len() && (#[trigger] day_entries(daily)[k]).0 == m
    &&& forall|k: int|
        0 <= k < r.len() ==> (#[trigger] r[k]).job_count == model_sum(
            day_entries(daily),
            day_entries(daily).len() as int,
            r[k].model_no@,
            0,
        ) && r[k].mismatch_count == model_sum(day_entries(daily), day_entries(daily).len() as int, r[k].model_no@, 1)
}

/// Per-model totals over a window of days, models in ascending order.
/// The totals must fit the counters.
pub fn sum_by_model(daily: &Vec<DailyStats>) -> (r: Vec<ModelCount>)
    requires
        forall|m: Seq<char>, which: int|
            #![trigger model_sum(day_entries(daily@), day_entries(daily@).len() as int, m, which)]
            model_sum(day_entries(daily@), day_entries(daily@).len() as int, m, which) <= u64::MAX,
    ensures
        is_model_sum(r@, daily@),
{
    let flat = flatten_counts(daily);
    let ghost es = day_entries(daily@);
    let ghost fv = flat@.map_values(|t: (String, u64, u64)| (t.0@, t.1, t.2));
    assert(fv == es);
    let mut names: Vec<String> = Vec::new();
    let mut i: usize = 0;
    while i < flat.len()
        invariant
            i <= flat@.len(),
            fv == flat@.map_values(|t: (String, u64, u64)| (t.0@, t.1, t.2)),
            strictly_sorted(strings_view(names@)),
            forall|m: Seq<char>| strings_view(names@).contains(m) <==> exists|k: int| 0 <= k < i && (#[trigger] fv[k]).0 == m,
        decreases flat.len() - i,
    {
        let ghost before = strings_view(names@);
        insert_sorted_distinct(&mut names, &flat[i].0);
        assert forall|m: Seq<char>| strings_view(names@).contains(m) <==> exists|k: int| 0 <= k < i + 1 && (#[trigger] fv[k]).0 == m by {
            if strings_view(names@).contains(m) && m != flat@[i as int].0@ {
                assert(before.contains(m));
            }
            if exists|k: int| 0 <= k < i + 1 && (#[trigger] fv[k]).0 == m {
                let k = choose|k: int| 0 <= k < i + 1 && (#[trigger] fv[k]).0 == m;
                if k < i {
                    assert(before.contains(m));
                }
            }
            if m == flat@[i as int].0@ {
                assert(fv[i as int].0 == m);
            }
        }
        i = i + 1;
    }
    let mut out: Vec<ModelCount> = Vec::new();
    let mut n: usize = 0;
    while n < names.len()
        invariant
            n <= names@.len(),
            fv == es,
            fv == flat@.map_values(|t: (String, u64, u64)| (t.0@, t.1, t.2)),
            forall|m: Seq<char>, which: int|
                #![trigger model_sum(es, es.len() as int, m, which)]
                model_sum(es, es.len() as int, m, which) <= u64::MAX,
            out@.len() == n,
            forall|k: int| 0 <= k < n ==> (#[trigger] out@[k]).model_no@ == names@[k]@,
            forall|k: int| 0 <= k < n ==> (#[trigger] out@[k]).job_count == model_sum(es, es.len() as int, out@[k].model_no@, 0)
                && out@[k].mismatch_count == model_sum(es, es.len() as int, out@[k].model_no@, 1),
        decreases names.len() - n,
    {
        let name = &names[n];
        let mut jobs: u64 = 0;
        let mut mism: u64 = 0;
        let mut j: usize = 0;
        while j < flat.len()
            invariant
                j <= flat@.len(),
                fv == es,
                fv == flat@.map_values(|t: (String, u64, u64)| (t.0@, t.1, t.2)),
                forall|m: Seq<char>, which: int|
                    #![trigger model_sum(es, es.len() as int, m, which)]
                    model_sum(es, es.len() as int, m, which) <= u64::MAX,
                jobs == model_sum(es, j as int, name@, 0),
                mism == model_sum(es, j as int, name@, 1),
            decreases flat.len() - j,
        {
            let e = &flat[j];
            if str_eq(e.0.as_str(), name.as_str()) {
                proof {
                    lemma_model_sum_mono(es, j + 1, es.len() as int, name@, 0);
                    lemma_model_sum_mono(es, j + 1, es.len() as int, name@, 1);
                    assert(model_sum(es, es.len() as int, name@, 0) <= u64::MAX);
                    assert(model_sum(es, es.len() as int, name@, 1) <= u64::MAX);
                }
                jobs = jobs + e.1;
                mism = mism + e.2;
            }
            j = j + 1;
        }
        out.push(ModelCount { model_no: name.clone(), job_count: jobs, mismatch_count: mism });
        n = n + 1;
    }
    assert(crate::domain::model_counts_view(out@) =~= strings_view(names@));
    out
}


/// Header line of the job export.
pub const CSV_HEADER: &'static str = "work_date,event_id,edge_id,plc_model_no,camera_model_no,match_status,plc_ts,camera_ts,confidence\n";

/// One export line: the free-text cells escaped, unknown models empty,
/// unknown times 0; `confidence` is the rendered double (0 when unknown).
pub open spec fn csv_line_of(r: JobView, confidence: Seq<char>) -> Seq<char> {
    r.work_date + ","@ + crate::gateway::csv_cell(r.event_id) + ","@ + crate::gateway::csv_cell(r.edge_id) + ","@
        + crate::gateway::csv_cell(crate::plc_state::or_empty(r.plc_model_no)) + ","@ + crate::gateway::csv_cell(
        crate::plc_state::or_empty(r.camera_model_no),
    ) + ","@ + r.match_status + ","@ + crate::text::dec(or_zero(r.plc_ts) as int) + ","@ + crate::text::dec(
        or_zero(r.camera_ts) as int,
    ) + ","@ + confidence + "\n"@
}

pub fn csv_line(r: &JobRow, confidence: &str) -> (s: String)
    ensures
        s@ == csv_line_of(r@, confidence@),
{
    let mut out = String::new();
    crate::text::push_str(&mut out, r.work_date.as_str());
    crate::text::push_str(&mut out, ",");
    let c = crate::gateway::csv_escape(r.event_id.as_str());
    crate::text::push_str(&mut out, c.as_str());
    crate::text::push_str(&mut out, ",");
    let c = crate::gateway::csv_escape(r.edge_id.as_str());
    crate::text::push_str(&mut out, c.as_str());
    crate::text::push_str(&mut out, ",");
    let c = crate::gateway::csv_escape(crate::plc_state::text_or_empty(&r.plc_model_no));
    crate::text::push_str(&mut out, c.as_str());
    crate::text::push_str(&mut out, ",");
    let c = crate::gateway::csv_escape(crate::plc_state::text_or_empty(&r.camera_model_no));
    crate::text::push_str(&mut out, c.as_str());
    crate::text::push_str(&mut out, ",");
    crate::text::push_str(&mut out, r.match_status.as_str());
    crate::text::push_str(&mut out, ",");
    crate::text::push_i64(&mut out, match r.plc_ts {
        Some(t) => t,
        None => 0,
    });
    crate::text::push_str(&mut out, ",");
    crate::text::push_i64(&mut out, match r.camera_ts {
        Some(t) => t,
        None => 0,
    });
    crate::text::push_str(&mut out, ",");
    crate::text::push_str(&mut out, confidence);
    crate::text::push_str(&mut out, "\n");
    assert(out@ =~= csv_line_of(r@, confidence@));
    out
}

/// The download name of an export: `paintrobot_<from>_<to>.csv`, with
/// `all` and `today` standing for an open end.
pub fn export_filename(from: Option<&str>, to: Option<&str>) -> (r: String)
    ensures
        r@ == "paintrobot_"@ + match from {
            Some(f) => f@,
            None => "all"@,
        } + "_"@ + match to {
            Some(t) => t@,
            None => "today"@,
        } + ".csv"@,
{
    let mut out = String::new();
    crate::text::push_str(&mut out, "paintrobot_");
    match from {
        Some(f) => crate::text::push_str(&mut out, f),
        None => crate::text::push_str(&mut out, "all"),
    }
    crate::text::push_str(&mut out, "_");
    match to {
        Some(t) => crate::text::push_str(&mut out, t),
        None => crate::text::push_str(&mut out, "today"),
    }
    crate::text::push_str(&mut out, ".csv");
    assert(out@ =~= "paintrobot_"@ + match from {
        Some(f) => f@,
        None => "all"@,
    } + "_"@ + match to {
        Some(t) => t@,
        None => "today"@,
    } + ".csv"@);
    out
}

/// The dates a job listing reads: `from` to `to` when both are given, else
/// today only; refused when a date cannot be read, when `to` is before
/// `from`, or when the window is longer than 366 days.
pub open spec fn window_ends(from: Option<&str>, to: Option<&str>, today: &str) -> (Seq<char>, Seq<char>) {
    match (from, to) {
        (Some(f), Some(t)) => (f@, t@),
        _ => (today@, today@),
    }
}

pub fn jobs_window(from: Option<&str>, to: Option<&str>, today: &str) -> (r: Result<Vec<String>, crate::cql::RepoError>)
    ensures
        ({
            let (fs, ts) = window_ends(from, to, today);
            match r {
                Ok(v) => crate::dates::ymd_days(fs) matches Some(a) && crate::dates::ymd_days(ts) matches Some(b)
                    && a <= b && b - a + 1 <= 366 && v@.map_values(|s: String| s@) == crate::dates::dates_between(a, b),
                Err(crate::cql::RepoError::Db(m)) => match (crate::dates::ymd_days(fs), crate::dates::ymd_days(ts)) {
                    (Some(a), Some(b)) => (b < a && m@ == "to must be >= from"@) || (a <= b && b - a + 1 > 366 && m@
                        == "range exceeds 366 days"@),
                    (None, _) => m@ == "bad from: "@ + crate::dates::ymd_error(fs),
                    (Some(_), None) => m@ == "bad to: "@ + crate::dates::ymd_error(ts),
                },
                Err(_) => false,
            }
        }),
{
    let dates = match (from, to) {
        (Some(f), Some(t)) => crate::dates::iter_dates(f, t),
        _ => crate::dates::iter_dates(today, today),
    };
    let dates = match dates {
        Ok(d) => d,
        Err(e) => return Err(crate::cql::RepoError::Db(e)),
    };
    assert(dates@.map_values(|s: String| s@).len() == dates@.len());
    if dates.len() > 366 {
        let mut m = String::new();
        crate::text::push_str(&mut m, "range exceeds 366 days");
        return Err(crate::cql::RepoError::Db(m));
    }
    Ok(dates)
}


// ── most recent readings ───────────────────────────────────────────────────

/// A key that orders times from latest to earliest (`!t`, which cannot
/// overflow).
pub open spec fn latest_first_key(t: i64) -> i64 {
    (-(t as int) - 1) as i64
}

pub open spec fn latest_first_keys(times: Seq<i64>) -> Seq<i64> {
    times.map_values(|t: i64| latest_first_key(t))
}

/// The positions of the `limit` latest readings, oldest of them first:
/// sorted from latest to earliest (equal times in their order), cut to
/// `limit`, then turned around for charting.
pub fn recent_positions(times: &Vec<i64>, limit: usize) -> (r: Vec<usize>)
    ensures
        exists|perm: Seq<usize>|
            is_stable_order(latest_first_keys(times@), perm) && r@ == perm.take(
                if limit < perm.len() { limit as int } else { perm.len() as int },
            ).reverse(),
{
    let mut keys: Vec<i64> = Vec::new();
    let mut i: usize = 0;
    while i < times.len()
        invariant
            i <= times@.len(),
            keys@ == latest_first_keys(times@).take(i as int),
        decreases times.len() - i,
    {
        let t = times[i];
        let k: i64 = -(t as i128 + 1) as i64;
        keys.push(k);
        assert(keys@ =~= latest_first_keys(times@).take(i + 1));
        i = i + 1;
    }
    assert(keys@ =~= latest_first_keys(times@));
    let perm = stable_order(&keys);
    let n: usize = if limit < perm.len() {
        limit
    } else {
        perm.len()
    };
    let mut out: Vec<usize> = Vec::new();
    let mut k: usize = n;
    while k > 0
        invariant
            k <= n <= perm@.len(),
            out@ == perm@.take(n as int).reverse().take(n - k),
        decreases k,
    {
        k = k - 1;
        out.push(perm[k]);
        assert(out@ =~= perm@.take(n as int).reverse().take(n - k));
    }
    assert(perm@.take(n as int).reverse().take(n as int) =~= perm@.take(n as int).reverse());
    out
}

} // verus!
