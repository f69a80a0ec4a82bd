use paintrobot::domain::{
    aggregate, canonical_model, classify, estimate_offset, mix_flow, plc_timeline, reconcile, AggRow, CamEvent,
    MatchBucket, MixFlowStats, PlcState,
};
use paintrobot::schema::{JobIn, MatchStatus};

const MIN_CONFIDENCE: f64 = 0.7;

fn job(plc: Option<&str>, cam: Option<&str>) -> JobIn {
    JobIn {
        event_id: "e".into(),
        edge_id: "edge".into(),
        plc_model_no: plc.map(String::from),
        camera_model_no: cam.map(String::from),
        plc_ts: None,
        camera_ts: None,
        confidence_bits: None,
        image_ref: None,
    }
}

fn plc(ts_min: i64, m: &str) -> PlcState {
    PlcState { ts_ms: ts_min * 60_000, model_no: m.into() }
}

fn cam(id: &str, ts_min: i64, m: &str, conf: f64) -> CamEvent {
    CamEvent { event_id: id.into(), ts_ms: ts_min * 60_000, model_no: m.into(), confident: !(conf < MIN_CONFIDENCE) }
}

fn rate(b: &MatchBucket) -> Option<f64> {
    match b.total() {
        0 => None,
        t => Some(b.mismatch as f64 / t as f64 * 100.0),
    }
}

fn avg_run(s: &MixFlowStats) -> f64 {
    if s.runs.is_empty() { 0.0 } else { s.units as f64 / s.runs.len() as f64 }
}

fn changeover_rate(s: &MixFlowStats) -> f64 {
    if s.units > 1 { s.changeovers as f64 / (s.units - 1) as f64 } else { 0.0 }
}

fn seq(models: &[&str]) -> Vec<(i64, String)> {
    models.iter().enumerate().map(|(i, m)| (i as i64 * 60_000, m.to_string())).collect()
}

#[test]
fn classify_variants() {
    assert_eq!(classify(&job(Some("A"), Some("A"))), MatchStatus::Matched);
    assert_eq!(classify(&job(Some("A"), Some("B"))), MatchStatus::Mismatch);
    assert_eq!(classify(&job(Some("A"), None)), MatchStatus::PlcOnly);
    assert_eq!(classify(&job(None, Some("A"))), MatchStatus::CameraOnly);
}

#[test]
fn canonical_model_prefers_the_plc() {
    assert_eq!(canonical_model(&job(Some("P"), Some("C"))), Some("P"));
    assert_eq!(canonical_model(&job(None, Some("C"))), Some("C"));
    assert_eq!(canonical_model(&job(None, None)), None);
}

#[test]
fn aggregate_counts() {
    let rows = vec![
        AggRow { model_no: "A".into(), match_status: "matched".into() },
        AggRow { model_no: "A".into(), match_status: "mismatch".into() },
        AggRow { model_no: "B".into(), match_status: "matched".into() },
    ];
    let stats = aggregate("2026-04-23".into(), rows);
    assert_eq!(stats.total_jobs, 3);
    assert_eq!(stats.mismatch_jobs, 1);
    assert_eq!(stats.models.len(), 2);
}

#[test]
fn aggregate_excludes_plc_only_rows() {
    let rows = vec![
        AggRow { model_no: "A".into(), match_status: "plc_only".into() },
        AggRow { model_no: "A".into(), match_status: "plc_only".into() },
        AggRow { model_no: "A".into(), match_status: "camera_only".into() },
        AggRow { model_no: "B".into(), match_status: "matched".into() },
        AggRow { model_no: "C".into(), match_status: "mismatch".into() },
    ];
    let stats = aggregate("2026-04-28".into(), rows);
    assert_eq!(stats.total_jobs, 3);
    assert_eq!(stats.mismatch_jobs, 1);
    let a = stats.models.iter().find(|m| m.model_no == "A").unwrap();
    assert_eq!(a.job_count, 1);
    assert_eq!(a.mismatch_count, 0);
}

#[test]
fn aggregate_models_ascending_and_summing_to_totals() {
    let rows = vec![
        AggRow { model_no: "C".into(), match_status: "mismatch".into() },
        AggRow { model_no: "A".into(), match_status: "matched".into() },
        AggRow { model_no: "B".into(), match_status: "camera_only".into() },
        AggRow { model_no: "A".into(), match_status: "mismatch".into() },
    ];
    let stats = aggregate("2026-05-01".into(), rows);
    let names: Vec<&str> = stats.models.iter().map(|m| m.model_no.as_str()).collect();
    assert_eq!(names, vec!["A", "B", "C"]);
    assert_eq!(stats.models.iter().map(|m| m.job_count).sum::<u64>(), stats.total_jobs);
    assert_eq!(stats.models.iter().map(|m| m.mismatch_count).sum::<u64>(), stats.mismatch_jobs);
    assert_eq!(stats.work_date, "2026-05-01");
}

#[test]
fn run_position_buckets_split_changeover_from_steady() {
    let timeline = vec![plc(0, "1"), plc(1000, "9")];
    let mut cams = Vec::new();
    cams.push(cam("c0", 0, "2", 0.95));
    for i in 1..11 {
        cams.push(cam(&format!("c{i}"), i, "1", 0.95));
    }
    let (_, rep) = reconcile(&timeline, &cams);
    assert_eq!(rep.first_unit.total(), 2);
    assert_eq!(rep.first_unit.mismatch, 1);
    assert_eq!(rate(&rep.first_unit), Some(50.0));
    assert_eq!(rep.early_units.total(), 2);
    assert_eq!(rep.early_units.mismatch, 0);
    assert_eq!(rep.steady_units.total(), 7);
    assert_eq!(
        rep.first_unit.total() + rep.early_units.total() + rep.steady_units.total(),
        rep.matched + rep.mismatch
    );
}

#[test]
fn empty_bucket_has_no_rate_rather_than_zero() {
    let b = MatchBucket::default();
    assert_eq!(rate(&b), None);
    assert_eq!(b.total(), 0);
}

#[test]
fn skipped_reads_do_not_shift_run_position() {
    let timeline = vec![plc(0, "1"), plc(1000, "9")];
    let mut cams = vec![cam("blurry", 0, "1", 0.10)];
    for i in 1..12 {
        cams.push(cam(&format!("c{i}"), i, "1", 0.95));
    }
    let (_, rep) = reconcile(&timeline, &cams);
    assert_eq!(rep.skipped_low_confidence, 1);
    assert_eq!(rep.first_unit.total(), 0);
    assert_eq!(rep.early_units.total(), 2);
}

#[test]
fn batch_run_is_not_mixed_flow() {
    let s = mix_flow(&seq(&["1"; 10]));
    assert_eq!(s.units, 10);
    assert_eq!(s.changeovers, 0);
    assert_eq!(avg_run(&s), 10.0);
    assert_eq!(s.singles, 0);
    assert_eq!(changeover_rate(&s), 0.0);
}

#[test]
fn alternating_every_unit_is_maximally_mixed() {
    let s = mix_flow(&seq(&["1", "2", "1", "2", "1"]));
    assert_eq!(s.changeovers, 4);
    assert!((changeover_rate(&s) - 1.0).abs() < 1e-9);
    assert_eq!(s.singles, 5);
    assert_eq!(s.max_run, 1);
}

#[test]
fn counts_the_single_unit_insertions() {
    let s = mix_flow(&seq(&["1", "1", "1", "2", "1", "1", "5", "5", "5", "6"]));
    assert_eq!(s.units, 10);
    assert_eq!(s.models, 4);
    assert_eq!(s.changeovers, 4);
    assert_eq!(s.singles, 2);
    assert_eq!(s.max_run, 3);
    assert_eq!(s.runs.len(), 5);
    assert_eq!(s.runs[1].model_no, "2");
    assert_eq!(s.runs[1].count, 1);
}

#[test]
fn empty_day_does_not_divide_by_zero() {
    let s = mix_flow(&[]);
    assert_eq!(s.units, 0);
    assert_eq!(avg_run(&s), 0.0);
    assert_eq!(changeover_rate(&s), 0.0);
    assert!(s.runs.is_empty());
}

#[test]
fn runs_cover_every_car_and_alternate() {
    let s = mix_flow(&seq(&["3", "3", "4", "3", "3", "3", "7"]));
    assert_eq!(s.runs.iter().map(|r| r.count).sum::<u32>(), s.units);
    for w in s.runs.windows(2) {
        assert_ne!(w[0].model_no, w[1].model_no);
    }
    assert_eq!(s.runs[0].start_ms, 0);
    assert_eq!(s.runs[2].start_ms, 3 * 60_000);
}

#[test]
fn timeline_compresses_repeats() {
    let raw = vec![plc(0, "6"), plc(1, "6"), plc(2, "6"), plc(9, "8"), plc(10, "8"), plc(20, "6")];
    let t = plc_timeline(&raw);
    assert_eq!(t.len(), 3);
    assert_eq!(t[0].model_no, "6");
    assert_eq!(t[1].ts_ms, 9 * 60_000);
    assert_eq!(t[2].model_no, "6");
}

#[test]
fn timeline_of_a_timeline_is_itself() {
    let raw = vec![plc(0, "1"), plc(1, "1"), plc(2, "2"), plc(3, "1")];
    let t = plc_timeline(&raw);
    let again = plc_timeline(&t);
    assert_eq!(again.len(), t.len());
    for (a, b) in again.iter().zip(t.iter()) {
        assert_eq!(a.ts_ms, b.ts_ms);
        assert_eq!(a.model_no, b.model_no);
    }
}

#[test]
fn estimates_the_lag_the_line_actually_has() {
    let timeline = vec![plc(0, "1"), plc(60, "3"), plc(120, "4")];
    let cams: Vec<_> = (0..6)
        .map(|i| cam(&format!("a{i}"), 10 + i * 5, "1", 0.95))
        .chain((0..6).map(|i| cam(&format!("b{i}"), 54 + i * 5, if i == 0 { "3" } else { "3" }, 0.95)))
        .collect();
    let off = estimate_offset(&timeline, &cams).unwrap();
    assert!((300..=420).contains(&off), "offset {off} 이 6분 근방이 아님");
}

#[test]
fn refuses_to_guess_from_a_tiny_sample() {
    let timeline = vec![plc(0, "1"), plc(60, "3")];
    let cams = vec![cam("a", 5, "1", 0.95), cam("b", 6, "1", 0.95)];
    assert_eq!(estimate_offset(&timeline, &cams), None);
    let (out, rep) = reconcile(&timeline, &cams);
    assert!(out.is_empty());
    assert_eq!(rep.offset_secs, None);
    assert_eq!(rep.matched + rep.mismatch, 0);
}

#[test]
fn low_confidence_reads_are_not_judged() {
    let timeline = vec![plc(0, "1"), plc(60, "3")];
    let mut cams: Vec<_> = (0..12).map(|i| cam(&format!("ok{i}"), 1 + i, "1", 0.95)).collect();
    cams.push(cam("blurry", 20, "9", 0.40));
    let (out, rep) = reconcile(&timeline, &cams);
    assert_eq!(rep.skipped_low_confidence, 1);
    assert!(out.iter().all(|r| r.event_id != "blurry"));
}

#[test]
fn genuine_wrong_model_is_flagged() {
    let timeline = vec![plc(0, "1"), plc(600, "3")];
    let mut cams: Vec<_> = (0..12).map(|i| cam(&format!("ok{i}"), 1 + i, "1", 0.95)).collect();
    cams.push(cam("stray", 20, "2", 0.94));
    let (out, rep) = reconcile(&timeline, &cams);
    assert_eq!(rep.mismatch, 1);
    let stray = out.iter().find(|r| r.event_id == "stray").unwrap();
    assert_eq!(stray.status, MatchStatus::Mismatch);
    assert_eq!(stray.plc_model_no, "1");
}

#[test]
fn events_before_any_plc_state_are_skipped() {
    let timeline = vec![plc(100, "1")];
    let cams: Vec<_> = (0..12).map(|i| cam(&format!("e{i}"), i, "1", 0.95)).collect();
    assert_eq!(estimate_offset(&timeline, &cams), None);

    let timeline = vec![plc(100, "1"), plc(200, "3")];
    let (_, rep) = reconcile(&timeline, &cams);
    assert_eq!(rep.skipped_no_plc + rep.matched + rep.mismatch, 12);
}

#[test]
fn reconcile_counts_add_up() {
    let timeline = vec![plc(0, "1"), plc(30, "2")];
    let mut cams: Vec<_> = (0..20).map(|i| cam(&format!("x{i}"), i * 2, if i < 15 { "1" } else { "2" }, 0.9)).collect();
    cams.push(cam("low", 5, "1", 0.2));
    let (out, rep) = reconcile(&timeline, &cams);
    assert_eq!(
        rep.matched + rep.mismatch + rep.skipped_low_confidence + rep.skipped_no_plc,
        cams.len() as u32
    );
    assert_eq!(out.len() as u32, rep.matched + rep.mismatch);
    let off = rep.offset_secs.unwrap();
    assert!(off >= 0 && off <= 900 && off % 30 == 0);
}
