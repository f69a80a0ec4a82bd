use paintrobot::coredb::{
    decode_double_opt, decode_i64, decode_text, decode_text_opt, envelope_rows, query_body,
    Cell, CoreDbClient, RawRow, WasiTransport,
};
use paintrobot::cql::RepoError;
use paintrobot::jobs::{decode_agg_row, decode_dated_agg_row, decode_job_row, decode_job_rows, job_date_bounds, JobRow};
use paintrobot::plc_state::{decode_state as decode_plc_state, PlcStateRow};
use paintrobot::recipes::{decode_recipe, RecipeRow};
use paintrobot::robot_store::{decode_day, decode_state as decode_robot_state, RobotDayRow, RobotStateRow};
use paintrobot::rollup::{decode_rollup, decode_work_date, RollupRow};
use paintrobot::schema::{JobIn, MatchStatus};

fn text(s: &str) -> Cell {
    Cell { text: Some(s.into()), big_int: None, int: None, double_bits: None, is_null: false, json: format!("{{\"Text\":\"{s}\"}}") }
}
fn big(n: i64) -> Cell {
    Cell { text: None, big_int: Some(n), int: None, double_bits: None, is_null: false, json: format!("{{\"BigInt\":{n}}}") }
}
fn int_cell(n: i64) -> Cell {
    Cell { text: None, big_int: None, int: Some(n), double_bits: None, is_null: false, json: format!("{{\"Int\":{n}}}") }
}
fn double(v: f64) -> Cell {
    Cell { text: None, big_int: None, int: None, double_bits: Some(v.to_bits()), is_null: false, json: format!("{{\"Double\":{v}}}") }
}
fn null() -> Cell {
    Cell { text: None, big_int: None, int: None, double_bits: None, is_null: true, json: "\"Null\"".into() }
}
fn row(cols: Vec<(&str, Cell)>) -> RawRow {
    RawRow { columns: cols.into_iter().map(|(k, v)| (k.to_string(), v)).collect() }
}
fn decode_msg(e: RepoError) -> String {
    match e {
        RepoError::Decode(m) => m,
        other => panic!("unexpected {other:?}"),
    }
}
fn client() -> CoreDbClient<WasiTransport> {
    CoreDbClient::new(WasiTransport::new(), "http://127.0.0.1:9043/".into(), "paintrobot".into())
}

#[test]
fn tagged_values_decode() {
    assert_eq!(decode_text(&text("x")).unwrap(), "x");
    assert_eq!(decode_msg(decode_text(&big(3)).unwrap_err()), "expected Text, got {\"BigInt\":3}");
    assert_eq!(decode_text_opt(&null()).unwrap(), None);
    assert_eq!(decode_text_opt(&text("y")).unwrap(), Some("y".to_string()));
    assert_eq!(decode_i64(&big(7)).unwrap(), 7);
    assert_eq!(decode_i64(&int_cell(5)).unwrap(), 5);
    assert_eq!(decode_msg(decode_i64(&text("q")).unwrap_err()), "expected BigInt/Int, got {\"Text\":\"q\"}");
    assert_eq!(decode_double_opt(&double(0.5)).unwrap(), Some(0.5f64.to_bits()));
    assert_eq!(decode_double_opt(&null()).unwrap(), None);
    assert!(decode_double_opt(&text("z")).is_err());
}

#[test]
fn column_lookup_takes_the_named_column() {
    let r = row(vec![("a", big(1)), ("b", big(2))]);
    assert_eq!(paintrobot::coredb::column(&r, "b").unwrap().big_int, Some(2));
    assert!(paintrobot::coredb::column(&r, "c").is_none());
}

#[test]
fn plc_state_row_decodes_with_defaults() {
    let r = row(vec![
        ("edge_id", text("edge-1")),
        ("model_no", text("")),
        ("plc_ts", big(0)),
        ("camera_model_no", text("HD-A120")),
        ("camera_ts", big(1700)),
    ]);
    let s: PlcStateRow = decode_plc_state(&r).unwrap();
    assert_eq!(s.edge_id, "edge-1");
    assert_eq!(s.model_no, None);
    assert_eq!(s.plc_ts, None);
    assert_eq!(s.camera_model_no.as_deref(), Some("HD-A120"));
    assert_eq!(s.camera_ts, Some(1700));
    assert_eq!(s.updated_at, 0);

    let missing = row(vec![("edge_id", text("e"))]);
    assert_eq!(decode_msg(decode_plc_state(&missing).unwrap_err()), "column model_no missing");
}

#[test]
fn plc_state_upsert_statement() {
    let c = client();
    let s = PlcStateRow {
        edge_id: "edge-1".into(),
        model_no: Some("HD-A120".into()),
        plc_ts: Some(1000),
        camera_model_no: None,
        camera_ts: None,
        updated_at: 2000,
    };
    assert_eq!(
        c.upsert_plc_state_cql(&s).unwrap(),
        "INSERT INTO paintrobot.plc_state (edge_id, model_no, plc_ts, camera_model_no, camera_ts, updated_at) VALUES ('edge-1', 'HD-A120', 1000, '', 0, 2000)"
    );
    let bad = PlcStateRow { camera_model_no: Some("x;y".into()), ..s };
    match c.upsert_plc_state_cql(&bad) {
        Err(RepoError::InvalidIdentifier(v)) => assert_eq!(v, "x;y"),
        other => panic!("unexpected {other:?}"),
    }
    assert_eq!(
        c.get_plc_state_cql("edge-1").unwrap(),
        "SELECT edge_id, model_no, plc_ts, camera_model_no, camera_ts, updated_at FROM paintrobot.plc_state WHERE edge_id='edge-1'"
    );
    assert_eq!(
        c.scan_plc_states_cql(1000),
        "SELECT edge_id, model_no, plc_ts, camera_model_no, camera_ts, updated_at FROM paintrobot.plc_state LIMIT 1000"
    );
}

#[test]
fn recipe_row_roundtrips_through_columns() {
    let r = row(vec![
        ("event_id", text("recipe-edge-3")),
        ("edge_id", text("edge")),
        ("model_no", big(3)),
        ("model_name", text("소나타")),
        ("levels", int_cell(4)),
        ("recipe_json", text("{}")),
        ("received_at", big(99)),
        ("work_date", text("2026-04-23")),
    ]);
    let rec: RecipeRow = decode_recipe(&r).unwrap();
    assert_eq!(rec.model_no, 3);
    assert_eq!(rec.levels, 4);
    assert_eq!(rec.model_name, "소나타");
    let c = client();
    assert_eq!(
        c.insert_recipe_cql(&rec).unwrap(),
        "INSERT INTO paintrobot.recipes (event_id, edge_id, model_no, model_name, levels, recipe_json, received_at, work_date) VALUES ('recipe-edge-3', 'edge', 3, '소나타', 4, '{}', 99, '2026-04-23')"
    );
    assert_eq!(
        c.scan_recipes_for_date_cql("2026-04-23", 10).unwrap(),
        "SELECT event_id, edge_id, model_no, model_name, levels, recipe_json, received_at, work_date FROM paintrobot.recipes WHERE work_date='2026-04-23' LIMIT 10"
    );
}

#[test]
fn robot_state_keeps_none_and_zero_apart() {
    let c = client();
    let s = RobotStateRow {
        edge_id: "edge".into(),
        robot_model: None,
        model_no: None,
        snapshot_json: "{\"a\":'b'}".into(),
        read_errors: "[]".into(),
        degraded: 0,
        io_streak: 2,
        received_at: 5,
    };
    let q = c.upsert_robot_state_cql(&s).unwrap();
    assert!(q.contains("-9223372036854775808"));
    assert!(q.contains("'{\"a\":''b''}'"));
    let back = row(vec![
        ("edge_id", text("edge")),
        ("robot_model", text("")),
        ("model_no", big(i64::MIN)),
        ("snapshot_json", null()),
        ("read_errors", null()),
    ]);
    let d: RobotStateRow = decode_robot_state(&back).unwrap();
    assert_eq!(d.model_no, None);
    assert_eq!(d.robot_model, None);
    assert_eq!(d.read_errors, "[]");
    assert_eq!(d.snapshot_json, "");
    assert_eq!(d.io_streak, 0);
    let zero = row(vec![
        ("edge_id", text("edge")),
        ("robot_model", text("M")),
        ("model_no", big(0)),
        ("snapshot_json", text("{}")),
        ("read_errors", text("[]")),
    ]);
    assert_eq!(decode_robot_state(&zero).unwrap().model_no, Some(0));
}

#[test]
fn day_and_rollup_rows() {
    let r = row(vec![("work_date", text("2026-04-23")), ("payload", text("{}"))]);
    let d: RobotDayRow = decode_day(&r).unwrap();
    assert_eq!(d.updated_at, 0);
    let ro: RollupRow = decode_rollup(&r).unwrap();
    assert_eq!(ro.work_date, "2026-04-23");
    assert_eq!(decode_work_date(&r).unwrap(), "2026-04-23");
    assert_eq!(decode_msg(decode_work_date(&row(vec![])).unwrap_err()), "work_date missing");
    let c = client();
    assert_eq!(
        c.upsert_rollup_cql(&ro).unwrap(),
        "INSERT INTO paintrobot.daily_rollup (work_date, payload, updated_at) VALUES ('2026-04-23', '{}', 0)"
    );
    assert_eq!(
        c.scan_rollups_cql("2026-04-01", "2026-04-30", 1000).unwrap(),
        "SELECT work_date, payload, updated_at FROM paintrobot.daily_rollup WHERE work_date>='2026-04-01' AND work_date<='2026-04-30' LIMIT 1000"
    );
    assert_eq!(c.all_rollup_dates_cql(5), "SELECT work_date FROM paintrobot.daily_rollup LIMIT 5");
    assert_eq!(
        c.upsert_robot_day_cql(&d).unwrap(),
        "INSERT INTO paintrobot.plc_robot_day (work_date, payload, updated_at) VALUES ('2026-04-23', '{}', 0)"
    );
}

fn job_cols(event: &str, status: &str, date: &str, plc: Cell, cam: Cell) -> RawRow {
    row(vec![
        ("event_id", text(event)),
        ("edge_id", text("edge-test-01")),
        ("plc_model_no", plc),
        ("camera_model_no", cam),
        ("plc_ts", big(0)),
        ("camera_ts", big(1713830003000)),
        ("confidence", text("junk")),
        ("match_status", text(status)),
        ("work_date", text(date)),
        ("image_ref", null()),
        ("created_at", big(1)),
    ])
}

#[test]
fn job_rows_decode() {
    let r = job_cols("it-1", "camera_only", "2026-04-23", text(""), text("HD-A120"));
    let j: JobRow = decode_job_row(&r).unwrap();
    assert_eq!(j.plc_model_no, None);
    assert_eq!(j.camera_model_no.as_deref(), Some("HD-A120"));
    assert_eq!(j.plc_ts, None);
    assert_eq!(j.camera_ts, Some(1713830003000));
    assert_eq!(j.confidence_bits, None);
    assert_eq!(j.image_ref, None);
    let all = decode_job_rows(&vec![r.clone(), row(vec![("event_id", text("x"))])]);
    assert_eq!(decode_msg(all.unwrap_err()), "column edge_id missing");
    let agg = decode_agg_row(&r).unwrap();
    assert_eq!(agg.model_no, "HD-A120");
    let (d, a) = decode_dated_agg_row(&job_cols("it-2", "matched", "2026-04-24", null(), text(""))).unwrap();
    assert_eq!(d, "2026-04-24");
    assert_eq!(a.model_no, "(unknown)");
    assert_eq!(decode_msg(decode_agg_row(&row(vec![])).unwrap_err()), "plc_model_no missing");
}

#[test]
fn date_bounds_skip_plc_only_rows() {
    let rows = vec![
        job_cols("a", "plc_only", "2026-01-01", null(), null()),
        job_cols("b", "matched", "2026-03-05", null(), null()),
        job_cols("c", "camera_only", "2026-02-10", null(), null()),
        job_cols("d", "mismatch", "2026-04-01", null(), null()),
    ];
    let b = job_date_bounds(&rows).unwrap();
    assert_eq!(b, Some(("2026-02-10".to_string(), "2026-04-01".to_string())));
    assert_eq!(job_date_bounds(&vec![rows[0].clone()]).unwrap(), None);
}

#[test]
fn job_statements() {
    let c = client();
    let job = JobIn {
        event_id: "it-1".into(),
        edge_id: "edge-test-01".into(),
        plc_model_no: Some("HD-A120".into()),
        camera_model_no: Some("HD-A120".into()),
        plc_ts: Some(1713830003000),
        camera_ts: None,
        confidence_bits: None,
        image_ref: None,
    };
    assert_eq!(
        c.insert_job_cql(&job, "2026-04-23", MatchStatus::Matched, 7, "0.0").unwrap(),
        "INSERT INTO paintrobot.jobs (event_id, edge_id, plc_model_no, camera_model_no, plc_ts, camera_ts, confidence, match_status, work_date, image_ref, created_at) VALUES ('it-1', 'edge-test-01', 'HD-A120', 'HD-A120', 1713830003000, 0, 0.0, 'matched', '2026-04-23', '', 7)"
    );
    match c.insert_job_cql(&job, "2026/04/23", MatchStatus::Matched, 7, "0.0") {
        Err(RepoError::InvalidIdentifier(v)) => assert_eq!(v, "2026/04/23"),
        other => panic!("unexpected {other:?}"),
    }
    assert_eq!(
        c.agg_rows_for_range_cql("2026-04-01", "2026-04-07", 100).unwrap(),
        "SELECT work_date, plc_model_no, camera_model_no, match_status FROM paintrobot.jobs WHERE work_date>='2026-04-01' AND work_date<='2026-04-07' LIMIT 100"
    );
    assert_eq!(c.job_date_bounds_cql(9), "SELECT work_date, match_status FROM paintrobot.jobs LIMIT 9");
    let stored = decode_job_row(&job_cols("it-9", "camera_only", "2026-04-23", null(), text("HD-B200"))).unwrap();
    assert_eq!(
        c.rewrite_job_match_cql(&stored, "HD-A120", MatchStatus::Mismatch, "0.9").unwrap(),
        "INSERT INTO paintrobot.jobs (event_id, edge_id, plc_model_no, camera_model_no, plc_ts, camera_ts, confidence, match_status, work_date, image_ref, created_at) VALUES ('it-9', 'edge-test-01', 'HD-A120', 'HD-B200', 0, 1713830003000, 0.9, 'mismatch', '2026-04-23', '', 1)"
    );
}

#[test]
fn request_and_envelope() {
    let c = client();
    assert_eq!(c.query_url(), "http://127.0.0.1:9043/query");
    let c2: CoreDbClient<WasiTransport> = CoreDbClient::new(WasiTransport::new(), "http://h//".into(), "k".into());
    assert_eq!(c2.query_url(), "http://h/query");
    assert_eq!(c2.keyspace, "k");
    assert_eq!(query_body("SELECT 'a' \"q\"\n"), "{\"query\":\"SELECT 'a' \\\"q\\\"\\n\"}");
    assert_eq!(query_body("\u{1}\\"), "{\"query\":\"\\u0001\\\\\"}");
    let rows = envelope_rows("success", None, None).unwrap();
    assert!(rows.is_empty());
    match envelope_rows("error", Some("no table".into()), None) {
        Err(RepoError::Db(m)) => assert_eq!(m, "no table"),
        other => panic!("unexpected {other:?}"),
    }
    match envelope_rows("error", None, None) {
        Err(RepoError::Db(m)) => assert_eq!(m, ""),
        other => panic!("unexpected {other:?}"),
    }
}
