use paintrobot::robot::{
    active_faults, active_station, detect_events, io_disagreements, is_degraded,
    jig_words_all_zero, work_id_mismatch, RobotEventKind, IO_DISAGREE_STREAK,
};
use paintrobot::schema::{BitMap, JigCompleted, JigIn, JigStation, RobotIn, RobotIo};

fn bits(pairs: &[(&str, Option<bool>)]) -> BitMap {
    let mut m = BitMap::new();
    for (k, v) in pairs {
        m.insert(k.to_string(), *v);
    }
    m
}

fn station(no: i64, work_id: i64, work_in: i64) -> JigStation {
    JigStation {
        no,
        work_id: Some(work_id),
        work_in: Some(work_in),
        shift_dist: Some(0),
        job_start_dist: Some(150),
        send_to_robot: Some(false),
        job_start: Some(false),
        send_done: Some(false),
    }
}

fn snap(model_no: Option<i64>) -> RobotIn {
    RobotIn {
        edge_id: "edge-line-01".into(),
        robot_model: Some("MPX2600".into()),
        model_no,
        robot: RobotIo {
            di: bits(&[("job_in_progress", Some(false)), ("fault", Some(false))]),
            alarm: bits(&[("panel_estop", Some(false)), ("fault", Some(false))]),
            ..Default::default()
        },
        jig: JigIn {
            stations: (1..=5).map(|n| station(n, 0, 0)).collect(),
            completed: JigCompleted { work_id: Some(0), work_in: Some(0) },
            ..Default::default()
        },
        read_errors: vec![],
    }
}

#[test]
fn handoff_is_a_rising_edge_only() {
    let prev = snap(Some(8));
    let mut next = prev.clone();
    next.jig.stations[1].send_to_robot = Some(true);
    let (evs, _) = detect_events(Some(&prev), &next, 100, 0);
    assert_eq!(evs.len(), 1);
    assert_eq!(evs[0].kind, RobotEventKind::JigHandoff);
    assert_eq!(evs[0].jig_no, Some(2));

    let (evs, _) = detect_events(Some(&next), &next, 200, 0);
    assert!(evs.is_empty());
}

#[test]
fn null_to_false_is_not_an_edge() {
    let mut prev = snap(Some(8));
    prev.jig.stations[0].send_done = None;
    let mut next = prev.clone();
    next.jig.stations[0].send_done = Some(false);
    let (evs, _) = detect_events(Some(&prev), &next, 100, 0);
    assert!(evs.is_empty());
}

#[test]
fn degraded_snapshot_is_skipped() {
    let prev = snap(Some(8));
    let mut next = prev.clone();
    next.jig.stations[1].send_to_robot = Some(true);
    next.read_errors = vec!["%PW12 x10words: connect refused".into()];
    let (evs, streak) = detect_events(Some(&prev), &next, 100, 3);
    assert!(evs.is_empty());
    assert_eq!(streak, 3, "품질 불량 스냅샷은 연속 횟수도 건드리지 않는다");
    assert!(is_degraded(&next));
}

#[test]
fn work_id_mismatch_needs_both_sides_known() {
    let mut s = snap(Some(8));
    s.jig.stations[1] = station(2, 8, 1);
    s.jig.stations[1].send_to_robot = Some(true);
    assert_eq!(work_id_mismatch(&s), Some(false));

    s.model_no = Some(7);
    assert_eq!(work_id_mismatch(&s), Some(true));

    s.model_no = None;
    assert_eq!(work_id_mismatch(&s), None);

    s.model_no = Some(7);
    s.jig.stations[1].work_id = Some(0);
    assert_eq!(work_id_mismatch(&s), None);
}

#[test]
fn mismatch_is_reported_without_a_previous_snapshot() {
    let mut s = snap(Some(7));
    s.jig.stations[1] = station(2, 8, 1);
    s.jig.stations[1].send_to_robot = Some(true);
    let (evs, _) = detect_events(None, &s, 100, 0);
    assert_eq!(evs.len(), 1);
    assert_eq!(evs[0].kind, RobotEventKind::WorkIdMismatch);
    assert_eq!(evs[0].jig_no, Some(2));
}

#[test]
fn io_disagreement_fires_only_after_a_streak() {
    let mut s = snap(Some(8));
    s.robot.command = bits(&[("servo_on", Some(true))]);
    s.robot.out = bits(&[("servo_on", Some(false))]);
    assert_eq!(io_disagreements(&s), vec!["servo_on"]);

    let mut streak = 0;
    for i in 1..IO_DISAGREE_STREAK {
        let (evs, st) = detect_events(Some(&s), &s, 100, streak);
        streak = st;
        assert!(evs.is_empty(), "{i}회째에는 아직 경보하지 않는다");
    }
    let (evs, streak) = detect_events(Some(&s), &s, 100, streak);
    assert_eq!(streak, IO_DISAGREE_STREAK);
    assert_eq!(evs.len(), 1);
    assert_eq!(evs[0].kind, RobotEventKind::IoDisagree);

    s.robot.out = bits(&[("servo_on", None)]);
    assert!(io_disagreements(&s).is_empty());
}

#[test]
fn agreement_restarts_the_streak() {
    let mut s = snap(Some(8));
    s.robot.command = bits(&[("servo_on", Some(true))]);
    s.robot.out = bits(&[("servo_on", Some(true))]);
    let (evs, streak) = detect_events(Some(&s), &s, 100, 4);
    assert!(evs.is_empty());
    assert_eq!(streak, 0);
}

#[test]
fn job_cycle_and_completion() {
    let prev = snap(Some(8));
    let mut next = prev.clone();
    next.robot.di.insert("job_in_progress".into(), Some(true));
    let (evs, _) = detect_events(Some(&prev), &next, 100, 0);
    assert_eq!(evs[0].kind, RobotEventKind::RobotJobStarted);

    let mut done = next.clone();
    done.robot.di.insert("job_in_progress".into(), Some(false));
    done.jig.completed.work_id = Some(8);
    let (evs, _) = detect_events(Some(&next), &done, 200, 0);
    let kinds: Vec<_> = evs.iter().map(|e| e.kind).collect();
    assert!(kinds.contains(&RobotEventKind::RobotJobEnded));
    assert!(kinds.contains(&RobotEventKind::CycleCompleted));
    assert_eq!(
        evs.iter().find(|e| e.kind == RobotEventKind::CycleCompleted).unwrap().model_no,
        Some(8)
    );
}

#[test]
fn estop_and_fault_are_separate_kinds() {
    let prev = snap(Some(8));
    let mut next = prev.clone();
    next.robot.alarm.insert("panel_estop".into(), Some(true));
    next.robot.alarm.insert("fault".into(), Some(true));
    let (evs, _) = detect_events(Some(&prev), &next, 100, 0);
    let kinds: Vec<_> = evs.iter().map(|e| e.kind).collect();
    assert!(kinds.contains(&RobotEventKind::EStop));
    assert!(kinds.contains(&RobotEventKind::RobotFault));
    assert!(RobotEventKind::EStop.is_alert());
}

#[test]
fn p_area_contacts_do_not_raise_alarms() {
    let mut s = snap(Some(8));
    s.robot.di.insert("cp_estop".into(), Some(true));
    s.robot.di.insert("pp_estop".into(), Some(true));
    assert!(active_faults(&s).is_empty());

    let prev = snap(Some(8));
    let (evs, _) = detect_events(Some(&prev), &s, 100, 0);
    assert!(evs.is_empty());

    let mut alarmed = snap(Some(8));
    alarmed.robot.alarm.insert("panel_estop".into(), Some(true));
    assert_eq!(active_faults(&alarmed), vec!["alarm.panel_estop"]);
}

#[test]
fn all_zero_jig_words_are_flagged() {
    let mut normal = snap(Some(8));
    normal.jig.chattering_guard = Some(30);
    normal.jig.start_sig_start_dist = Some(150);
    for st in normal.jig.stations.iter_mut() {
        st.job_start_dist = Some(150);
    }
    assert!(!jig_words_all_zero(&normal));

    let mut zeroed = snap(Some(8));
    zeroed.jig.shift_distance = Some(0);
    zeroed.jig.chattering_guard = Some(0);
    zeroed.jig.start_sig_start_dist = Some(0);
    zeroed.jig.start_sig_end_dist = Some(0);
    for st in zeroed.jig.stations.iter_mut() {
        st.job_start_dist = Some(0);
    }
    assert!(jig_words_all_zero(&zeroed));

    let mut unread = snap(Some(8));
    unread.jig.shift_distance = None;
    unread.jig.chattering_guard = None;
    unread.jig.start_sig_start_dist = None;
    unread.jig.start_sig_end_dist = None;
    unread.jig.completed = JigCompleted { work_id: None, work_in: None };
    for st in unread.jig.stations.iter_mut() {
        st.work_id = None;
        st.work_in = None;
        st.shift_dist = None;
        st.job_start_dist = None;
    }
    assert!(!jig_words_all_zero(&unread));
}

#[test]
fn active_station_prefers_the_one_being_sent() {
    let mut s = snap(Some(8));
    s.jig.stations[0] = station(1, 8, 1);
    s.jig.stations[3] = station(4, 7, 1);
    s.jig.stations[3].send_to_robot = Some(true);
    assert_eq!(active_station(&s).map(|x| x.no), Some(4));

    s.jig.stations[3].send_to_robot = Some(false);
    assert_eq!(active_station(&s).map(|x| x.no), Some(4));

    let empty = snap(Some(8));
    assert!(active_station(&empty).is_none());
}

#[test]
fn unchanged_snapshot_has_no_edges() {
    let mut s = snap(Some(8));
    s.jig.stations[2].send_to_robot = Some(true);
    s.robot.alarm.insert("panel_estop".into(), Some(true));
    s.robot.di.insert("job_in_progress".into(), Some(true));
    let (evs, _) = detect_events(Some(&s), &s, 100, 0);
    assert!(evs.is_empty());
}

#[test]
fn disagreements_follow_the_pair_order() {
    let mut s = snap(Some(8));
    s.robot.command = bits(&[("call_master_job", Some(true)), ("external_start", Some(false)), ("servo_on", Some(true))]);
    s.robot.out = bits(&[("call_master_job", Some(false)), ("external_start", Some(true)), ("servo_on", Some(true))]);
    assert_eq!(io_disagreements(&s), vec!["external_start", "call_master_job"]);
}

#[test]
fn active_faults_come_in_key_order() {
    let mut s = snap(Some(8));
    s.robot.alarm = bits(&[("servo_fault", Some(true)), ("panel_estop", Some(true)), ("door_open", Some(true))]);
    s.robot.di = bits(&[("fault", Some(true)), ("cp_estop", Some(true))]);
    assert_eq!(active_faults(&s), vec!["alarm.panel_estop".to_string(), "alarm.servo_fault".to_string()]);
}
