use paintrobot::coredb::WasiTransport;
use paintrobot::dates::{MAX_DAY, MIN_DAY, clamp_range, date_text, iter_dates, needs_bounds, order_range, parse_date, span_days};
use paintrobot::domain::{work_date, AggRow, KST_OFFSET_SECS};
use paintrobot::gateway::{csv_escape, query_param, sanitize_id, url_decode};
use paintrobot::ingest::{
    camera_state, check_edge_key, check_recipe, client, duplicate_response, edge_api_keys,
    insert_outcome, is_dry_run, job_date_source, job_post_step, plc_event_id, plc_model_changed,
    plc_model_job, plc_model_state, plc_post_step, recipe_event_id, JobPostAction, JobPostEvent,
    PlcPostAction, PlcPostEvent,
};
use paintrobot::jobs::JobRow;
use paintrobot::live::{live_step, sse_frame, LiveStep, LIVE_FRAMES, LIVE_INTERVAL_SECS};
use paintrobot::order::stable_order;
use paintrobot::plc_state::PlcStateRow;
use paintrobot::recipes::RecipeRow;
use paintrobot::schema::{DailyStats, JobIn, ModelCount, PlcModelIn, RecipeIn, RecipeParam, RecipeSet};
use paintrobot::cql::RepoError;
use paintrobot::stats::{daily_from_rollups, daily_from_rows, first_last, parse_group_by, GroupBy};
use paintrobot::views::{
    csv_line, export_filename, filter_jobs, find_job, jobs_window, latest_plc_state_from_rows,
    latest_recipe, mix_sequence, page_window, plc_current_from_states, recent_positions,
    reconcile_inputs, sum_by_model, CSV_HEADER,
};
use paintrobot::weather::{upstream_reply, weather_error_reply, OwmProvider, WeatherError};

#[test]
fn sanitize_keeps_identifier_characters() {
    assert_eq!(sanitize_id("edge 01/á"), "edge_01__");
    assert_eq!(sanitize_id(&"a".repeat(70)).len(), 64);
    assert_eq!(sanitize_id("ok-1.2:3_x"), "ok-1.2:3_x");
}

#[test]
fn csv_cells() {
    assert_eq!(csv_escape("plain"), "plain");
    assert_eq!(csv_escape("a,b"), "\"a,b\"");
    assert_eq!(csv_escape("say \"hi\""), "\"say \"\"hi\"\"\"");
    assert_eq!(csv_escape("two\nlines"), "\"two\nlines\"");
}

#[test]
fn query_strings() {
    assert_eq!(query_param("from=2026-04-01&to=2026-04-07", "to").as_deref(), Some("2026-04-07"));
    assert_eq!(query_param("a=1&a=2", "a").as_deref(), Some("1"));
    assert_eq!(query_param("flag&x=1", "flag").as_deref(), Some(""));
    assert_eq!(query_param("x=1", "y"), None);
    assert_eq!(query_param("m=HD%2DA120+x", "m").as_deref(), Some("HD-A120 x"));
}

#[test]
fn percent_decoding() {
    assert_eq!(url_decode("a+b%20c"), "a b c");
    assert_eq!(url_decode("%zz!"), "!");
    assert_eq!(url_decode("100%"), "100%");
    assert_eq!(url_decode("%ED%95%9C"), "한");
    assert_eq!(url_decode("%FF"), "\u{FFFD}");
}

#[test]
fn edge_keys() {
    assert!(check_edge_key(&vec![], None));
    let keys = edge_api_keys(Some(" k1 , ,k2,"));
    assert_eq!(keys, vec!["k1".to_string(), "k2".to_string()]);
    assert!(check_edge_key(&keys, Some("k2")));
    assert!(!check_edge_key(&keys, Some("k3")));
    assert!(!check_edge_key(&keys, None));
    assert!(edge_api_keys(None).is_empty());
    assert!(edge_api_keys(Some("")).is_empty());
}

#[test]
fn event_ids() {
    assert_eq!(plc_event_id("edge 1", "HD-A120", 1713830003000), "plc-edge_1-HD-A120-1713830003000");
    assert_eq!(recipe_event_id("edge-1", -3), "recipe-edge-1--3");
}

fn param(n: usize) -> RecipeParam {
    RecipeParam { table: vec![1; n], applied: vec![2; n] }
}

fn recipe(levels: i64, a: usize, p: usize, f: usize) -> RecipeIn {
    RecipeIn {
        edge_id: "edge".into(),
        model_no: 3,
        model_name: "x".into(),
        levels,
        recipe: RecipeSet { atomization: param(a), pattern: param(p), flow: param(f) },
    }
}

#[test]
fn recipe_levels_are_checked() {
    assert!(check_recipe(&recipe(4, 4, 4, 4)).is_ok());
    assert_eq!(check_recipe(&recipe(0, 0, 0, 0)).unwrap_err(), "levels out of range (1..=256)");
    assert_eq!(check_recipe(&recipe(257, 4, 4, 4)).unwrap_err(), "levels out of range (1..=256)");
    assert_eq!(
        check_recipe(&recipe(4, 4, 3, 4)).unwrap_err(),
        "pattern: table/applied length must equal levels (4)"
    );
    assert_eq!(
        check_recipe(&recipe(2, 1, 1, 1)).unwrap_err(),
        "atomization: table/applied length must equal levels (2)"
    );
}

fn state(model: Option<&str>, cam: Option<&str>) -> PlcStateRow {
    PlcStateRow {
        edge_id: "edge".into(),
        model_no: model.map(String::from),
        plc_ts: Some(10),
        camera_model_no: cam.map(String::from),
        camera_ts: Some(20),
        updated_at: 30,
    }
}

#[test]
fn plc_polls() {
    assert!(plc_model_changed(&None, "A"));
    assert!(plc_model_changed(&Some(state(None, None)), "A"));
    assert!(plc_model_changed(&Some(state(Some("B"), None)), "A"));
    assert!(!plc_model_changed(&Some(state(Some("A"), None)), "A"));
    let inp = PlcModelIn { edge_id: "edge".into(), model_no: "A".into(), plc_ts: None };
    let s = plc_model_state(&Some(state(Some("B"), Some("C"))), &inp, 100, 200);
    assert_eq!(s.model_no.as_deref(), Some("A"));
    assert_eq!(s.plc_ts, Some(100));
    assert_eq!(s.camera_model_no.as_deref(), Some("C"));
    assert_eq!(s.camera_ts, Some(20));
    assert_eq!(s.updated_at, 200);
    let j = plc_model_job("plc-edge-A-100".into(), &inp, 100);
    assert_eq!(j.plc_model_no.as_deref(), Some("A"));
    assert_eq!(j.camera_model_no, None);
}

fn job_in(cam: Option<&str>, plc_ts: Option<i64>, camera_ts: Option<i64>) -> JobIn {
    JobIn {
        event_id: "e1".into(),
        edge_id: "edge".into(),
        plc_model_no: None,
        camera_model_no: cam.map(String::from),
        plc_ts,
        camera_ts,
        confidence_bits: None,
        image_ref: None,
    }
}

#[test]
fn job_ingest_decisions() {
    assert_eq!(job_date_source(&job_in(None, Some(1), Some(2)), 9), 1);
    assert_eq!(job_date_source(&job_in(None, None, Some(2)), 9), 2);
    assert_eq!(job_date_source(&job_in(None, None, None), 9), 9);
    assert!(camera_state(&None, &job_in(Some(""), None, None), 5).is_none());
    let s = camera_state(&Some(state(Some("P"), None)), &job_in(Some("K"), None, Some(77)), 5).unwrap();
    assert_eq!(s.model_no.as_deref(), Some("P"));
    assert_eq!(s.plc_ts, Some(10));
    assert_eq!(s.camera_model_no.as_deref(), Some("K"));
    assert_eq!(s.camera_ts, Some(77));
    assert_eq!(s.updated_at, 5);
    let d = duplicate_response();
    assert_eq!((d.accepted, d.duplicates, d.rejected.len()), (0, 1, 0));
    let ok = insert_outcome("e1".into(), Ok(())).unwrap();
    assert_eq!((ok.accepted, ok.duplicates), (1, 0));
    let rej = insert_outcome("e1".into(), Err(RepoError::InvalidIdentifier("a b".into()))).unwrap();
    assert_eq!(rej.accepted, 0);
    assert_eq!(rej.rejected[0].event_id, "e1");
    assert_eq!(rej.rejected[0].reason, "invalid identifier: a b");
    assert!(matches!(insert_outcome("e1".into(), Err(RepoError::Db("x".into()))), Err(RepoError::Db(_))));
}

#[test]
fn dry_run_is_the_default() {
    assert!(is_dry_run(false, Some("false")));
    assert!(is_dry_run(true, None));
    assert!(is_dry_run(true, Some("no")));
    assert!(!is_dry_run(true, Some("false")));
}

#[test]
fn dates_and_windows() {
    let d = parse_date("2026-04-23").unwrap();
    assert_eq!(date_text(d), "2026-04-23");
    assert_eq!(parse_date("2026-13-01"), None);
    assert_eq!(iter_dates("2026-02-27", "2026-03-01").unwrap(), vec!["2026-02-27", "2026-02-28", "2026-03-01"]);
    assert_eq!(iter_dates("2026-03-01", "2026-02-27").unwrap_err(), "to must be >= from");
    assert!(iter_dates("x", "2026-02-27").unwrap_err().starts_with("bad from: "));
    assert!(iter_dates("2026-02-27", "y").unwrap_err().starts_with("bad to: "));
    assert_eq!(order_range(5, 3), (3, 5));
    assert_eq!(span_days(3, 5), 3);
    assert!(!needs_bounds(d, d + 365));
    assert!(needs_bounds(d, d + 366));
    // A window that fits is kept.
    assert_eq!(clamp_range(d, d + 10, None), (d, d + 10));
    // A too-wide window is pulled onto the stored dates...
    assert_eq!(clamp_range(d - 1000, d + 1000, Some((Some(d), Some(d + 20)))), (d, d + 20));
    // ...and cut to its last 366 days if still too wide.
    assert_eq!(clamp_range(d - 1000, d + 1000, None), (d + 635, d + 1000));
    // No overlap with the stored dates gives an empty window.
    let (f, t) = clamp_range(d - 1000, d - 500, Some((Some(d), Some(d + 5))));
    assert!(t < f);
    assert_eq!(work_date(1713830003000, KST_OFFSET_SECS).as_deref(), Some("2024-04-23"));
    assert_eq!(work_date(1713798000000 - 1, KST_OFFSET_SECS).as_deref(), Some("2024-04-22"));
    assert_eq!(work_date(1713798000000, KST_OFFSET_SECS).as_deref(), Some("2024-04-23"));
    let w = jobs_window(None, Some("2026-01-01"), "2026-04-23").unwrap();
    assert_eq!(w, vec!["2026-04-23"]);
    assert!(matches!(jobs_window(Some("2024-01-01"), Some("2026-01-01"), "x"), Err(RepoError::Db(m)) if m == "range exceeds 366 days"));
    assert!(matches!(jobs_window(Some("nope"), Some("2026-01-01"), "x"), Err(RepoError::Db(m)) if m.starts_with("bad from: ")));
    assert!(matches!(jobs_window(Some("2026-01-01"), Some("nope"), "x"), Err(RepoError::Db(m)) if m.starts_with("bad to: ")));
}

#[test]
fn group_by_values() {
    assert_eq!(parse_group_by(None), Some(GroupBy::Day));
    assert_eq!(parse_group_by(Some("day")), Some(GroupBy::Day));
    assert_eq!(parse_group_by(Some("model")), Some(GroupBy::Model));
    assert_eq!(parse_group_by(Some("week")), None);
}

fn agg(m: &str, s: &str) -> AggRow {
    AggRow { model_no: m.into(), match_status: s.into() }
}

#[test]
fn daily_figures_cover_every_requested_date() {
    let dates = vec!["2026-04-01".to_string(), "2026-04-02".to_string()];
    let rows = vec![
        ("2026-04-02".to_string(), agg("A", "matched")),
        ("2026-03-31".to_string(), agg("B", "matched")),
        ("2026-04-02".to_string(), agg("A", "mismatch")),
    ];
    let daily = daily_from_rows(&dates, &rows);
    assert_eq!(daily.len(), 2);
    assert_eq!(daily[0].total_jobs, 0);
    assert_eq!(daily[1].total_jobs, 2);
    assert_eq!(daily[1].mismatch_jobs, 1);

    let stored = DailyStats { work_date: "2026-04-02".into(), total_jobs: 9, mismatch_jobs: 1, models: vec![] };
    let newer = DailyStats { work_date: "2026-04-02".into(), total_jobs: 11, mismatch_jobs: 2, models: vec![] };
    let from_rollups = daily_from_rollups(&dates, &vec![("2026-04-02".into(), stored), ("2026-04-02".into(), newer)]);
    assert_eq!(from_rollups[0].total_jobs, 0);
    assert_eq!(from_rollups[0].work_date, "2026-04-01");
    assert_eq!(from_rollups[1].total_jobs, 11);
}

#[test]
fn window_totals_by_model() {
    let day = |d: &str, ms: Vec<(&str, u64, u64)>| DailyStats {
        work_date: d.into(),
        total_jobs: ms.iter().map(|m| m.1).sum(),
        mismatch_jobs: ms.iter().map(|m| m.2).sum(),
        models: ms.into_iter().map(|(m, j, x)| ModelCount { model_no: m.into(), job_count: j, mismatch_count: x }).collect(),
    };
    let days = vec![day("d1", vec![("B", 2, 1), ("A", 1, 0)]), day("d2", vec![("B", 3, 0), ("C", 4, 4)])];
    let out = sum_by_model(&days);
    assert_eq!(out.iter().map(|m| m.job_count).sum::<u64>(), days.iter().map(|d| d.total_jobs).sum::<u64>());
    assert_eq!(out.iter().map(|m| m.mismatch_count).sum::<u64>(), days.iter().map(|d| d.mismatch_jobs).sum::<u64>());
    let flat: Vec<(String, u64, u64)> = out.into_iter().map(|m| (m.model_no, m.job_count, m.mismatch_count)).collect();
    assert_eq!(flat, vec![("A".into(), 1, 0), ("B".into(), 5, 1), ("C".into(), 4, 4)]);
    assert!(sum_by_model(&vec![]).is_empty());
}

#[test]
fn first_and_last_dates() {
    let v = vec!["2026-03-01".to_string(), "2026-01-05".to_string(), "2026-02-01".to_string()];
    assert_eq!(first_last(&v), Some(("2026-01-05".to_string(), "2026-03-01".to_string())));
    assert_eq!(first_last(&vec![]), None);
}

fn stored(event: &str, status: &str, plc: Option<&str>, cam: Option<&str>, plc_ts: Option<i64>, camera_ts: Option<i64>, created: i64) -> JobRow {
    JobRow {
        event_id: event.into(),
        edge_id: "edge".into(),
        plc_model_no: plc.map(String::from),
        camera_model_no: cam.map(String::from),
        plc_ts,
        camera_ts,
        confidence_bits: None,
        match_status: status.into(),
        work_date: "2026-04-23".into(),
        image_ref: None,
        created_at: created,
    }
}

#[test]
fn reconcile_inputs_from_rows() {
    let rows = vec![
        stored("p2", "plc_only", Some("2"), None, Some(300), None, 0),
        stored("p1", "plc_only", Some("1"), None, Some(100), None, 0),
        stored("p1b", "plc_only", Some("1"), None, Some(200), None, 0),
        stored("pz", "plc_only", Some(""), None, Some(50), None, 0),
        stored("c2", "camera_only", None, Some("1"), None, Some(250), 0),
        stored("c1", "matched", None, Some("2"), None, Some(150), 0),
        stored("edge-paired", "matched", Some("1"), Some("1"), Some(90), Some(95), 0),
        stored("c0", "mismatch", None, Some("1"), None, Some(150), 0),
    ];
    let conf = vec![true; rows.len()];
    let (timeline, cams) = reconcile_inputs(&rows, &conf);
    let t: Vec<(i64, &str)> = timeline.iter().map(|s| (s.ts_ms, s.model_no.as_str())).collect();
    assert_eq!(t, vec![(100, "1"), (300, "2")]);
    let c: Vec<&str> = cams.iter().map(|c| c.event_id.as_str()).collect();
    assert_eq!(c, vec!["c1", "c0", "c2"]);
}

#[test]
fn production_order_from_rows() {
    let rows = vec![
        stored("a", "camera_only", None, Some("X"), None, Some(30), 0),
        stored("b", "plc_only", Some("P"), None, Some(10), None, 0),
        stored("c", "matched", Some("Y"), Some(""), Some(20), None, 0),
        stored("d", "mismatch", Some("Z"), Some("W"), Some(5), Some(30), 0),
    ];
    let seq = mix_sequence(&rows);
    assert_eq!(seq, vec![(20, "Y".to_string()), (30, "X".to_string()), (30, "W".to_string())]);
}

#[test]
fn current_state_from_rows_and_states() {
    let rows = vec![
        stored("a", "plc_only", Some("1"), None, Some(100), None, 1),
        stored("b", "plc_only", Some("2"), None, Some(100), None, 2),
        stored("c", "camera_only", None, Some("9"), None, None, 500),
        stored("d", "camera_only", None, Some(""), None, Some(900), 0),
    ];
    let cur = latest_plc_state_from_rows(&rows);
    assert_eq!(cur.model_no.as_deref(), Some("2"));
    assert_eq!(cur.event_id.as_deref(), Some("b"));
    assert_eq!(cur.camera_model_no.as_deref(), Some("9"));
    assert_eq!(cur.camera_ts, None);
    let empty = latest_plc_state_from_rows(&vec![]);
    assert!(empty.model_no.is_none() && empty.edge_id.is_none());

    let states = vec![state(Some("A"), None), PlcStateRow { edge_id: "edge-2".into(), plc_ts: None, updated_at: 40, ..state(Some("B"), None) }];
    let c = plc_current_from_states(&states).unwrap();
    assert_eq!(c.edge_id.as_deref(), Some("edge-2"));
    assert_eq!(c.event_id, None);
    assert!(plc_current_from_states(&vec![]).is_none());
}

#[test]
fn latest_recipe_per_edge() {
    let r = |edge: &str, at: i64| recipe_on(edge, at, "d");
    let rows = vec![r("a", 5), r("b", 9), r("a", 7), r("a", 7)];
    assert_eq!(latest_recipe(&rows, None, "d"), Some(1));
    assert_eq!(latest_recipe(&rows, Some("a"), "d"), Some(3));
    assert_eq!(latest_recipe(&rows, Some("z"), "d"), None);
}

#[test]
fn current_recipe_is_only_from_today() {
    let rows = vec![recipe_on("a", 5, "2024-05-01"), recipe_on("a", 9, "2024-04-30")];
    assert_eq!(latest_recipe(&rows, None, "2024-05-01"), Some(0));
    assert_eq!(latest_recipe(&rows, Some("a"), "2024-05-02"), None);
    assert_eq!(latest_recipe(&vec![recipe_on("a", 9, "2024-04-30")], None, "2024-05-01"), None);
}

fn recipe_on(edge: &str, at: i64, day: &str) -> RecipeRow {
    RecipeRow {
        event_id: "e".into(),
        edge_id: edge.into(),
        model_no: 1,
        model_name: "m".into(),
        levels: 1,
        recipe_json: "{}".into(),
        received_at: at,
        work_date: day.into(),
    }
}

#[test]
fn listing_filters_and_pages() {
    let rows = vec![
        stored("a", "matched", Some("X"), Some("X"), None, None, 0),
        stored("b", "mismatch", Some("X"), Some("Y"), None, None, 0),
        stored("c", "camera_only", None, Some("Y"), None, None, 0),
    ];
    assert_eq!(filter_jobs(&rows, Some("Y"), None), vec![1, 2]);
    assert_eq!(filter_jobs(&rows, Some("X"), Some("matched")), vec![0]);
    assert_eq!(find_job(&rows, "c"), Some(2));
    assert_eq!(find_job(&rows, "q"), None);
    assert_eq!(page_window(10, 0, 4), (0, 4));
    assert_eq!(page_window(10, 2, 4), (8, 10));
    assert_eq!(page_window(10, 5, 4), (10, 10));
    assert_eq!(page_window(10, usize::MAX, 4), (10, 10));
}

#[test]
fn export_lines() {
    let r = stored("a,1", "matched", Some("X"), None, Some(5), None, 0);
    assert_eq!(csv_line(&r, "0.95"), "2026-04-23,\"a,1\",edge,X,,matched,5,0,0.95\n");
    assert!(CSV_HEADER.starts_with("work_date,event_id"));
    assert_eq!(export_filename(None, Some("2026-04-02")), "paintrobot_all_2026-04-02.csv");
    assert_eq!(export_filename(None, None), "paintrobot_all_today.csv");
}

#[test]
fn stable_ordering() {
    assert_eq!(stable_order(&vec![3, 1, 3, 0, 1]), vec![3, 1, 4, 0, 2]);
    assert!(stable_order(&vec![]).is_empty());
}

#[test]
fn gateway_client() {
    let c = client("http://db:9043".into(), "paintrobot".into());
    assert_eq!(c.query_url(), "http://db:9043/query");
    let _t: &WasiTransport = c.transport_ref();
}

#[test]
fn weather_decisions() {
    assert!(matches!(OwmProvider::new(String::new()).check_key(), Err(WeatherError::MissingKey)));
    assert!(OwmProvider::new("k".into()).check_key().is_ok());
    assert_eq!(upstream_reply(200, "b".into()).unwrap(), "b");
    assert!(matches!(upstream_reply(401, "no".into()), Err(WeatherError::Upstream(401, b)) if b == "no"));
    let (s, m) = weather_error_reply(&WeatherError::Upstream(503, "down".into()));
    assert_eq!((s, m.as_str()), (502, "owm 503: down"));
    let (s, m) = weather_error_reply(&WeatherError::MissingKey);
    assert_eq!((s, m.as_str()), (503, "owm key missing"));
    assert_eq!(WeatherError::Upstream(404, "x".into()).message(), "upstream status 404: x");
    assert_eq!(WeatherError::MissingKey.message(), "missing API key");
}

#[test]
fn recent_readings_oldest_first() {
    assert_eq!(recent_positions(&vec![5, 9, 5, 1], 3), vec![2, 0, 1]);
    assert_eq!(recent_positions(&vec![5, 9], 10), vec![0, 1]);
    assert_eq!(recent_positions(&vec![i64::MIN, i64::MAX], 1), vec![1]);
    assert!(recent_positions(&vec![3], 0).is_empty());
}

#[test]
fn sanitized_ids_are_identifiers() {
    for raw in ["edge 01", "a;b'c", "차종", "ok"] {
        assert!(paintrobot::cql::check_identifier(&sanitize_id(raw)).is_ok());
    }
}

#[test]
fn a_repeated_poll_is_unchanged() {
    let inp = PlcModelIn { edge_id: "edge".into(), model_no: "HD-A120".into(), plc_ts: None };
    let stored = plc_model_state(&None, &inp, 100, 200);
    assert!(!plc_model_changed(&Some(stored), "HD-A120"));
}

#[test]
fn live_stream_schedule() {
    let mut left = LIVE_FRAMES;
    let mut waits = Vec::new();
    loop {
        let (step, rest) = live_step(left);
        match step {
            LiveStep::Stop => break,
            LiveStep::Send { wait_secs } => waits.push(wait_secs),
        }
        left = rest;
    }
    assert_eq!(waits.len(), 1800);
    assert_eq!(waits[0], 0);
    assert!(waits[1..].iter().all(|w| *w == LIVE_INTERVAL_SECS));
    assert_eq!(waits.iter().sum::<u64>(), 3598);
    assert_eq!(live_step(0), (LiveStep::Stop, 0));
}

#[test]
fn live_frame_text() {
    assert_eq!(sse_frame("stats", "{\"total_jobs\":9}"), "event: stats\ndata: {\"total_jobs\":9}\n\n");
}

#[test]
fn model_change_post_steps() {
    assert!(matches!(plc_post_step(PlcPostEvent::StateRead { changed: false }), PlcPostAction::StoreState));
    assert!(matches!(plc_post_step(PlcPostEvent::StateStored { changed: false }), PlcPostAction::ReplyUnchanged));
    assert!(matches!(plc_post_step(PlcPostEvent::StateStored { changed: true }), PlcPostAction::LookUpJob));
    assert!(matches!(plc_post_step(PlcPostEvent::JobLookedUp(Ok(true))), PlcPostAction::ReplyDuplicate));
    assert!(matches!(plc_post_step(PlcPostEvent::JobLookedUp(Ok(false))), PlcPostAction::InsertJob));
    assert!(matches!(
        plc_post_step(PlcPostEvent::JobLookedUp(Err(RepoError::Db("down".into())))),
        PlcPostAction::ReplyError(RepoError::Db(m)) if m == "down"
    ));
    assert!(matches!(plc_post_step(PlcPostEvent::JobInserted(Ok(()))), PlcPostAction::ReplyAccepted));
    assert!(matches!(
        plc_post_step(PlcPostEvent::JobInserted(Err(RepoError::Transport("t".into())))),
        PlcPostAction::ReplyError(RepoError::Transport(m)) if m == "t"
    ));
}

#[test]
fn job_post_steps() {
    assert!(matches!(job_post_step(JobPostEvent::JobLookedUp(Ok(true))), JobPostAction::ReplyDuplicate));
    assert!(matches!(job_post_step(JobPostEvent::JobLookedUp(Ok(false))), JobPostAction::InsertJob));
    assert!(matches!(
        job_post_step(JobPostEvent::JobLookedUp(Err(RepoError::Db("x".into())))),
        JobPostAction::ReplyError(RepoError::Db(m)) if m == "x"
    ));
    assert!(matches!(job_post_step(JobPostEvent::JobInserted { ok: true }), JobPostAction::RecordCameraThenAnswer));
    assert!(matches!(job_post_step(JobPostEvent::JobInserted { ok: false }), JobPostAction::Answer));
}

#[test]
fn written_dates_read_back() {
    for d in ["2026-04-23", "0001-01-01", "9999-12-31", "2024-02-29"] {
        let n = parse_date(d).unwrap();
        assert_eq!(date_text(n), d);
        assert_eq!(parse_date(&date_text(n)), Some(n));
    }
    let far = parse_date("+12345-06-07").unwrap();
    assert_eq!(parse_date(&date_text(far)), Some(far));
    let before = parse_date("-0044-03-15").unwrap();
    assert_eq!(parse_date(&date_text(before)), Some(before));
    for n in [MIN_DAY, MAX_DAY, 0, 1] {
        assert_eq!(parse_date(&date_text(n)), Some(n));
    }
}
