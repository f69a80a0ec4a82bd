use paintrobot::schema::{BitMap, JigCompleted, JigIn, JigStation, MatchStatus, RobotIn, RobotIo};

fn station(no: i64) -> JigStation {
    JigStation {
        no,
        work_id: Some(0),
        work_in: Some(0),
        shift_dist: Some(0),
        job_start_dist: Some(150),
        send_to_robot: Some(false),
        job_start: Some(false),
        send_done: Some(false),
    }
}

fn snap() -> RobotIn {
    RobotIn {
        edge_id: "edge-line-01".into(),
        robot_model: None,
        model_no: Some(3),
        robot: RobotIo::default(),
        jig: JigIn {
            stations: (1..=5).map(station).collect(),
            completed: JigCompleted { work_id: Some(0), work_in: Some(0) },
            ..Default::default()
        },
        read_errors: vec![],
    }
}

#[test]
fn status_names() {
    assert_eq!(MatchStatus::Matched.as_str(), "matched");
    assert_eq!(MatchStatus::Mismatch.as_str(), "mismatch");
    assert_eq!(MatchStatus::PlcOnly.as_str(), "plc_only");
    assert_eq!(MatchStatus::CameraOnly.as_str(), "camera_only");
}

#[test]
fn valid_snapshot_passes() {
    assert!(snap().validate().is_ok());
}

#[test]
fn blank_edge_is_refused() {
    let mut s = snap();
    s.edge_id = "  \t".into();
    assert_eq!(s.validate().unwrap_err(), "edge_id must be a non-empty string");
}

#[test]
fn station_count_and_numbering_are_checked() {
    let mut s = snap();
    s.jig.stations.pop();
    assert_eq!(s.validate().unwrap_err(), "jig.stations must have exactly 5 entries, got 4");
    let mut s = snap();
    s.jig.stations[2].no = 9;
    assert_eq!(s.validate().unwrap_err(), "jig.stations[2].no must be 3, got 9");
}

#[test]
fn int16_range_is_checked_in_order() {
    let mut s = snap();
    s.jig.chattering_guard = Some(40000);
    assert_eq!(s.validate().unwrap_err(), "jig.chattering_guard: 40000 is outside INT16 range");
    let mut s = snap();
    s.jig.stations[3].job_start_dist = Some(-40000);
    assert_eq!(s.validate().unwrap_err(), "jig.stations[4].job_start_dist: -40000 is outside INT16 range");
    let mut s = snap();
    s.model_no = Some(32768);
    assert_eq!(s.validate().unwrap_err(), "model_no: 32768 is outside INT16 range");
    let mut s = snap();
    s.model_no = Some(32767);
    assert!(s.validate().is_ok());
}

#[test]
fn model_no_outside_hmi_range_is_flagged_not_refused() {
    let mut s = snap();
    s.model_no = Some(9);
    assert!(s.validate().is_ok());
    assert!(s.model_no_out_of_range());
    s.model_no = Some(8);
    assert!(!s.model_no_out_of_range());
    s.model_no = None;
    assert!(s.model_no_out_of_range());
}

#[test]
fn bitmap_keeps_keys_ordered_and_overwrites() {
    let mut m = BitMap::new();
    m.insert("b".into(), Some(true));
    m.insert("a".into(), None);
    m.insert("b".into(), Some(false));
    assert_eq!(m.len(), 2);
    assert_eq!(m.key_at(0), "a");
    assert_eq!(m.get("b"), Some(Some(false)));
    assert_eq!(m.get("a"), Some(None));
    assert_eq!(m.get("c"), None);
}
