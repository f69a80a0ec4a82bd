//! Meaningful events from robot-interface snapshots: edges against the
//! previous snapshot, and the HMI model ↔ loaded body mismatch.
//!
//! Everything here is a pure function; the receive time is passed in by the
//! caller because the edge PLC has no trustworthy clock.

use vstd::prelude::*;
use crate::schema::{bits_get, bits_sorted, BitMap, BitsView, JigStation, RobotIn};
use crate::text::{
    contains_sub, dec, push_i64, push_str, push_u64, str_contains, str_eq, strings_view, strs_view,
};

verus! {

/// What kind of transition a robot event records.
#[derive(Debug, Clone, Copy, PartialEq, Eq, Structural)]
pub enum RobotEventKind {
    /// `send_to_robot` false→true on a JIG station.
    JigHandoff,
    /// `send_done` false→true.
    JigHandoffDone,
    /// `di.job_in_progress` false→true.
    RobotJobStarted,
    /// `di.job_in_progress` true→false (one cycle).
    RobotJobEnded,
    /// `jig.completed.work_id` changed to a non-zero value.
    CycleCompleted,
    /// An alarm came on.
    RobotFault,
    /// An emergency stop came on.
    EStop,
    /// HMI model and the loaded body differ — risk of painting the wrong recipe.
    WorkIdMismatch,
    /// Internal relay and output contact disagreed for a streak of snapshots.
    IoDisagree,
}

pub open spec fn kind_name(k: RobotEventKind) -> Seq<char> {
    match k {
        RobotEventKind::JigHandoff => "jig_handoff"@,
        RobotEventKind::JigHandoffDone => "jig_handoff_done"@,
        RobotEventKind::RobotJobStarted => "robot_job_started"@,
        RobotEventKind::RobotJobEnded => "robot_job_ended"@,
        RobotEventKind::CycleCompleted => "cycle_completed"@,
        RobotEventKind::RobotFault => "robot_fault"@,
        RobotEventKind::EStop => "estop"@,
        RobotEventKind::WorkIdMismatch => "work_id_mismatch"@,
        RobotEventKind::IoDisagree => "io_disagree"@,
    }
}

pub open spec fn kind_is_alert(k: RobotEventKind) -> bool {
    k is WorkIdMismatch || k is EStop || k is RobotFault || k is IoDisagree
}

impl RobotEventKind {
    pub fn as_str(self) -> (r: &'static str)
        ensures
            r@ == kind_name(self),
    {
        match self {
            RobotEventKind::JigHandoff => "jig_handoff",
            RobotEventKind::JigHandoffDone => "jig_handoff_done",
            RobotEventKind::RobotJobStarted => "robot_job_started",
            RobotEventKind::RobotJobEnded => "robot_job_ended",
            RobotEventKind::CycleCompleted => "cycle_completed",
            RobotEventKind::RobotFault => "robot_fault",
            RobotEventKind::EStop => "estop",
            RobotEventKind::WorkIdMismatch => "work_id_mismatch",
            RobotEventKind::IoDisagree => "io_disagree",
        }
    }

    /// Must stand out on screen: wrong-model, emergency stop, alarm, I/O disagreement.
    pub fn is_alert(self) -> (r: bool)
        ensures
            r == kind_is_alert(self),
    {
        match self {
            RobotEventKind::WorkIdMismatch
            | RobotEventKind::EStop
            | RobotEventKind::RobotFault
            | RobotEventKind::IoDisagree => true,
            _ => false,
        }
    }
}

/// One transition. `detail` is a human-readable line; the other fields are
/// what machines use.
#[derive(Debug, Clone, PartialEq)]
pub struct RobotEvent {
    pub kind: RobotEventKind,
    pub ts_ms: i64,
    /// JIG number (1..=5), when the event concerns a station.
    pub jig_no: Option<i64>,
    /// The model number the event points at.
    pub model_no: Option<i64>,
    pub detail: String,
}

pub struct RobotEventView {
    pub kind: RobotEventKind,
    pub ts_ms: i64,
    pub jig_no: Option<i64>,
    pub model_no: Option<i64>,
    pub detail: Seq<char>,
}

impl View for RobotEvent {
    type V = RobotEventView;

    open spec fn view(&self) -> RobotEventView {
        RobotEventView {
            kind: self.kind,
            ts_ms: self.ts_ms,
            jig_no: self.jig_no,
            model_no: self.model_no,
            detail: self.detail@,
        }
    }
}

pub open spec fn ev(
    kind: RobotEventKind,
    ts_ms: i64,
    jig_no: Option<i64>,
    model_no: Option<i64>,
    detail: Seq<char>,
) -> RobotEventView {
    RobotEventView { kind, ts_ms, jig_no, model_no, detail }
}

pub open spec fn events_view(v: Seq<RobotEvent>) -> Seq<RobotEventView> {
    Seq::new(v.len(), |i: int| v[i]@)
}

/// Disagreements must persist this many consecutive snapshots before an alarm.
pub const IO_DISAGREE_STREAK: u32 = 5;

/// Number of `command`/`do` pairs watched for disagreement.
pub const IO_PAIR_COUNT: usize = 5;

/// The `command`/`do` key names that must carry equal values.
pub open spec fn io_pair_name(i: int) -> Seq<char> {
    if i == 0 {
        "external_start"@
    } else if i == 1 {
        "servo_on"@
    } else if i == 2 {
        "play_mode_select"@
    } else if i == 3 {
        "teach_mode_select"@
    } else {
        "call_master_job"@
    }
}

/// The `i`-th watched `command`/`do` pair name.
pub fn io_pair(i: usize) -> (r: &'static str)
    requires
        i < IO_PAIR_COUNT,
    ensures
        r@ == io_pair_name(i as int),
{
    if i == 0 {
        "external_start"
    } else if i == 1 {
        "servo_on"
    } else if i == 2 {
        "play_mode_select"
    } else if i == 3 {
        "teach_mode_select"
    } else {
        "call_master_job"
    }
}

/// Number of bit groups whose `estop`/`fault` keys count as alarms.
pub const FAULT_GROUP_COUNT: usize = 1;

/// The alarm groups. Only `alarm` (PLC internal relays, polarity certain):
/// the P-area `di` contacts read ON while the robot idles normally.
pub open spec fn fault_group_name(i: int) -> Seq<char> {
    "alarm"@
}

/// The `i`-th alarm group name.
pub fn fault_group(i: usize) -> (r: &'static str)
    requires
        i < FAULT_GROUP_COUNT,
    ensures
        r@ == fault_group_name(i as int),
{
    "alarm"
}

/// The bits of a named group, for the groups that can count as alarms.
pub open spec fn fault_group_bits(snap: RobotIn, g: Seq<char>) -> Option<BitsView> {
    if g == "alarm"@ {
        Some(snap.robot.alarm@)
    } else if g == "di"@ {
        Some(snap.robot.di@)
    } else {
        None
    }
}

/// `false → true`. A value coming from `None` (unknown) is no edge.
pub open spec fn rose_spec(prev: Option<bool>, next: Option<bool>) -> bool {
    prev == Some(false) && next == Some(true)
}

pub open spec fn fell_spec(prev: Option<bool>, next: Option<bool>) -> bool {
    prev == Some(true) && next == Some(false)
}

fn rose(prev: Option<bool>, next: Option<bool>) -> (r: bool)
    ensures
        r == rose_spec(prev, next),
{
    matches!(prev, Some(false)) && matches!(next, Some(true))
}

fn fell(prev: Option<bool>, next: Option<bool>) -> (r: bool)
    ensures
        r == fell_spec(prev, next),
{
    matches!(prev, Some(true)) && matches!(next, Some(false))
}

/// A bit's value; missing keys read as unknown.
pub open spec fn bit_of(m: BitsView, k: Seq<char>) -> Option<bool> {
    match bits_get(m, k) {
        Some(v) => v,
        None => None,
    }
}

fn bit(m: &BitMap, k: &str) -> (r: Option<bool>)
    ensures
        r == bit_of(m@, k@),
{
    match m.get(k) {
        Some(v) => v,
        None => None,
    }
}

// ── active station ──────────────────────────────────────────────────────

/// A work piece is loaded: `work_in` and `work_id` both known and non-zero.
pub open spec fn loaded(s: JigStation) -> bool {
    &&& s.work_in is Some
    &&& s.work_in->0 != 0
    &&& s.work_id is Some
    &&& s.work_id->0 != 0
}

/// Selector 0: being sent to the robot; 1: job start issued.
pub open spec fn station_flag(s: JigStation, which: int) -> bool {
    if which == 0 {
        s.send_to_robot == Some(true)
    } else {
        s.job_start == Some(true)
    }
}

/// First position `i..` whose flag `which` is on.
pub open spec fn first_flagged(st: Seq<JigStation>, which: int, i: int) -> Option<int>
    decreases st.len() - i,
{
    if i < 0 || i >= st.len() {
        None
    } else if station_flag(st[i], which) {
        Some(i)
    } else {
        first_flagged(st, which, i + 1)
    }
}

/// Last position below `i` that holds a work piece.
pub open spec fn last_loaded(st: Seq<JigStation>, i: int) -> Option<int>
    decreases i,
{
    if i <= 0 || i > st.len() {
        None
    } else if loaded(st[i - 1]) {
        Some(i - 1)
    } else {
        last_loaded(st, i - 1)
    }
}

/// The station being handed to the robot: sending > job started > last loaded.
pub open spec fn active_index(st: Seq<JigStation>) -> Option<int> {
    match first_flagged(st, 0, 0) {
        Some(i) => Some(i),
        None => match first_flagged(st, 1, 0) {
            Some(i) => Some(i),
            None => last_loaded(st, st.len() as int),
        },
    }
}

fn first_flagged_exec(st: &Vec<JigStation>, which: u8) -> (r: Option<usize>)
    requires
        which <= 1,
    ensures
        match r {
            Some(i) => first_flagged(st@, which as int, 0) == Some(i as int),
            None => first_flagged(st@, which as int, 0) is None,
        },
{
    let mut i: usize = 0;
    while i < st.len()
        invariant
            which <= 1,
            0 <= i <= st.len(),
            first_flagged(st@, which as int, 0) == first_flagged(st@, which as int, i as int),
        decreases st.len() - i,
    {
        let s = st[i];
        let on = if which == 0 {
            matches!(s.send_to_robot, Some(true))
        } else {
            matches!(s.job_start, Some(true))
        };
        if on {
            return Some(i);
        }
        i = i + 1;
    }
    None
}

fn active_index_exec(st: &Vec<JigStation>) -> (r: Option<usize>)
    ensures
        match r {
            Some(i) => active_index(st@) == Some(i as int) && i < st@.len(),
            None => active_index(st@) is None,
        },
{
    if let Some(i) = first_flagged_exec(st, 0) {
        proof { lemma_first_flagged_bound(st@, 0, 0); }
        return Some(i);
    }
    if let Some(i) = first_flagged_exec(st, 1) {
        proof { lemma_first_flagged_bound(st@, 1, 0); }
        return Some(i);
    }
    let mut i: usize = st.len();
    while i > 0
        invariant
            0 <= i <= st.len(),
            first_flagged(st@, 0, 0) is None,
            first_flagged(st@, 1, 0) is None,
            last_loaded(st@, st@.len() as int) == last_loaded(st@, i as int),
        decreases i,
    {
        let s = st[i - 1];
        let l = match (s.work_in, s.work_id) {
            (Some(w), Some(id)) => w != 0 && id != 0,
            _ => false,
        };
        if l {
            return Some(i - 1);
        }
        i = i - 1;
    }
    None
}

proof fn lemma_first_flagged_bound(st: Seq<JigStation>, which: int, i: int)
    ensures
        first_flagged(st, which, i) matches Some(j) ==> i <= j < st.len(),
    decreases st.len() - i,
{
    if 0 <= i < st.len() && !station_flag(st[i], which) {
        lemma_first_flagged_bound(st, which, i + 1);
    }
}

/// The JIG currently going to the robot: one being sent, else one whose job
/// started, else the last one holding a work piece; `None` when the line is
/// empty.
pub fn active_station(snap: &RobotIn) -> (r: Option<&JigStation>)
    ensures
        r is Some == active_index(snap.jig.stations@) is Some,
        r matches Some(s) ==> *s == snap.jig.stations@[active_index(snap.jig.stations@)->0],
{
    match active_index_exec(&snap.jig.stations) {
        Some(i) => Some(&snap.jig.stations[i]),
        None => None,
    }
}

/// Whether the HMI model differs from the work on the active station; `None`
/// when either side is unknown or zero (an empty station).
pub open spec fn work_id_mismatch_spec(snap: RobotIn) -> Option<bool> {
    match snap.model_no {
        None => None,
        Some(hmi) => match active_index(snap.jig.stations@) {
            None => None,
            Some(i) => match snap.jig.stations@[i].work_id {
                None => None,
                Some(w) => if w == 0 || hmi == 0 {
                    None
                } else {
                    Some(hmi != w)
                },
            },
        },
    }
}

/// Whether the HMI model number differs from the body on the active JIG.
/// Unknown or zero on either side gives `None`, never "fine".
pub fn work_id_mismatch(snap: &RobotIn) -> (r: Option<bool>)
    ensures
        r == work_id_mismatch_spec(*snap),
{
    let hmi = match snap.model_no {
        Some(h) => h,
        None => return None,
    };
    let st = match active_station(snap) {
        Some(s) => s,
        None => return None,
    };
    let work_id = match st.work_id {
        Some(w) => w,
        None => return None,
    };
    if work_id == 0 || hmi == 0 {
        return None;
    }
    Some(hmi != work_id)
}

// ── command ↔ do ────────────────────────────────────────────────────────

/// Both sides known and different.
pub open spec fn pair_disagrees(snap: RobotIn, k: Seq<char>) -> bool {
    match (bit_of(snap.robot.command@, k), bit_of(snap.robot.out@, k)) {
        (Some(a), Some(b)) => a != b,
        _ => false,
    }
}

/// The disagreeing pair names among the first `n` pairs, in pair order.
pub open spec fn disagreeing_upto(snap: RobotIn, n: int) -> Seq<Seq<char>>
    decreases n,
{
    if n <= 0 {
        Seq::empty()
    } else {
        disagreeing_upto(snap, n - 1) + if pair_disagrees(snap, io_pair_name(n - 1)) {
            seq![io_pair_name(n - 1)]
        } else {
            Seq::empty()
        }
    }
}

pub open spec fn disagreeing(snap: RobotIn) -> Seq<Seq<char>> {
    disagreeing_upto(snap, IO_PAIR_COUNT as int)
}

/// `command` ↔ `do` pairs whose values differ; a pair with an unknown side is skipped.
pub fn io_disagreements(snap: &RobotIn) -> (r: Vec<&'static str>)
    ensures
        strs_view(r@) == disagreeing(*snap),
{
    let mut out: Vec<&'static str> = Vec::new();
    let mut i: usize = 0;
    while i < IO_PAIR_COUNT
        invariant
            0 <= i <= IO_PAIR_COUNT,
            strs_view(out@) == disagreeing_upto(*snap, i as int),
        decreases IO_PAIR_COUNT - i,
    {
        let k = io_pair(i);
        let d = match (bit(&snap.robot.command, k), bit(&snap.robot.out, k)) {
            (Some(a), Some(b)) => a != b,
            _ => false,
        };
        if d {
            out.push(k);
        }
        assert(strs_view(out@) =~= disagreeing_upto(*snap, i + 1));
        i = i + 1;
    }
    out
}

// ── alarms ──────────────────────────────────────────────────────────────

/// An alarm-like key: its name mentions `estop` or `fault`.
pub open spec fn alarm_key(k: Seq<char>) -> bool {
    contains_sub(k, "estop"@) || contains_sub(k, "fault"@)
}

/// `"{group}.{key}"` for the first `n` entries that are on and alarm-like.
pub open spec fn group_faults(g: Seq<char>, m: BitsView, n: int) -> Seq<Seq<char>>
    decreases n,
{
    if n <= 0 || n > m.len() {
        Seq::empty()
    } else {
        group_faults(g, m, n - 1) + if m[n - 1].1 == Some(true) && alarm_key(m[n - 1].0) {
            seq![g + "."@ + m[n - 1].0]
        } else {
            Seq::empty()
        }
    }
}

/// Active alarms over the first `n` alarm groups.
pub open spec fn faults_upto(snap: RobotIn, n: int) -> Seq<Seq<char>>
    decreases n,
{
    if n <= 0 {
        Seq::empty()
    } else {
        faults_upto(snap, n - 1) + match fault_group_bits(snap, fault_group_name(n - 1)) {
            Some(m) => group_faults(fault_group_name(n - 1), m, m.len() as int),
            None => Seq::empty(),
        }
    }
}

/// Alarms and emergency stops that are on now, as `group.key`, from the
/// `alarm` group only, in ascending key order.
pub fn active_faults(snap: &RobotIn) -> (r: Vec<String>)
    ensures
        strings_view(r@) == faults_upto(*snap, FAULT_GROUP_COUNT as int),
        bits_sorted(snap.robot.alarm@),
{
    proof { use_type_invariant(&snap.robot.alarm); }
    let mut out: Vec<String> = Vec::new();
    let mut gi: usize = 0;
    while gi < FAULT_GROUP_COUNT
        invariant
            0 <= gi <= FAULT_GROUP_COUNT,
            strings_view(out@) == faults_upto(*snap, gi as int),
        decreases FAULT_GROUP_COUNT - gi,
    {
        let grp = fault_group(gi);
        let m = if str_eq(grp, "alarm") {
            &snap.robot.alarm
        } else if str_eq(grp, "di") {
            &snap.robot.di
        } else {
            assert(fault_group_bits(*snap, grp@) is None);
            assert(faults_upto(*snap, gi + 1) =~= faults_upto(*snap, gi as int));
            gi = gi + 1;
            continue;
        };
        assert(fault_group_bits(*snap, grp@) == Some(m@));
        let ghost base = out@;
        let n = m.len();
        let mut i: usize = 0;
        while i < n
            invariant
                n == m@.len(),
                0 <= i <= n,
                gi < FAULT_GROUP_COUNT,
                grp@ == fault_group_name(gi as int),
                strings_view(out@) == strings_view(base) + group_faults(grp@, m@, i as int),
            decreases n - i,
        {
            let k = m.key_at(i);
            let on = match m.value_at(i) {
                Some(b) => b,
                None => false,
            };
            let hit = on && (str_contains(k.as_str(), "estop") || str_contains(k.as_str(), "fault"));
            assert(hit == (m@[i as int].1 == Some(true) && alarm_key(m@[i as int].0)));
            let ghost before = out@;
            if hit {
                let mut s = String::new();
                push_str(&mut s, grp);
                push_str(&mut s, ".");
                push_str(&mut s, k.as_str());
                out.push(s);
                assert(strings_view(out@) =~= strings_view(before).push(grp@ + "."@ + m@[i as int].0));
            }
            assert(strings_view(out@) =~= strings_view(base) + group_faults(grp@, m@, i + 1));
            i = i + 1;
        }
        assert(strings_view(out@) =~= faults_upto(*snap, gi + 1));
        gi = gi + 1;
    }
    out
}

/// Data quality: a snapshot with read errors is left out of edge detection.
pub open spec fn degraded(snap: RobotIn) -> bool {
    snap.read_errors@.len() > 0
}

pub fn is_degraded(snap: &RobotIn) -> (r: bool)
    ensures
        r == degraded(*snap),
{
    snap.read_errors.len() > 0
}

// ── all-zero JIG words ──────────────────────────────────────────────────

pub open spec fn station_words(s: JigStation) -> Seq<Option<i64>> {
    seq![s.work_id, s.work_in, s.shift_dist, s.job_start_dist]
}

pub open spec fn stations_words(st: Seq<JigStation>, n: int) -> Seq<Option<i64>>
    decreases n,
{
    if n <= 0 || n > st.len() {
        Seq::empty()
    } else {
        stations_words(st, n - 1) + station_words(st[n - 1])
    }
}

/// Every word read from the `%DW` block, settings included.
pub open spec fn jig_words(snap: RobotIn) -> Seq<Option<i64>> {
    let j = snap.jig;
    seq![
        j.shift_distance,
        j.chattering_guard,
        j.start_sig_start_dist,
        j.start_sig_end_dist,
        j.completed.work_id,
        j.completed.work_in,
    ] + stations_words(j.stations@, j.stations@.len() as int)
}

/// Some word was read, and every word read is zero.
pub open spec fn all_zero_words(w: Seq<Option<i64>>) -> bool {
    (exists|i: int| 0 <= i < w.len() && w[i] is Some)
    && (forall|i: int| 0 <= i < w.len() && (#[trigger] w[i]) is Some ==> w[i]->0 == 0)
}

/// Whether every `%DW` word is zero — including settings that are never zero
/// on a working line — so the empty-looking JIG needs checking. All unknown
/// is not "all zero".
pub fn jig_words_all_zero(snap: &RobotIn) -> (r: bool)
    ensures
        r == all_zero_words(jig_words(*snap)),
{
    let j = &snap.jig;
    let mut vals: Vec<Option<i64>> = vec![
        j.shift_distance,
        j.chattering_guard,
        j.start_sig_start_dist,
        j.start_sig_end_dist,
        j.completed.work_id,
        j.completed.work_in,
    ];
    let ghost head = vals@;
    let mut k: usize = 0;
    while k < j.stations.len()
        invariant
            0 <= k <= j.stations@.len(),
            vals@ == head + stations_words(j.stations@, k as int),
        decreases j.stations.len() - k,
    {
        let st = j.stations[k];
        vals.push(st.work_id);
        vals.push(st.work_in);
        vals.push(st.shift_dist);
        vals.push(st.job_start_dist);
        assert(vals@ =~= head + stations_words(j.stations@, k + 1));
        k = k + 1;
    }
    assert(vals@ =~= jig_words(*snap));
    let mut any = false;
    let mut all = true;
    let mut i: usize = 0;
    while i < vals.len()
        invariant
            0 <= i <= vals@.len(),
            any == (exists|q: int| 0 <= q < i && vals@[q] is Some),
            all == (forall|q: int| 0 <= q < i && (#[trigger] vals@[q]) is Some ==> vals@[q]->0 == 0),
        decreases vals.len() - i,
    {
        match vals[i] {
            Some(v) => {
                any = true;
                if v != 0 {
                    all = false;
                }
            },
            None => {},
        }
        i = i + 1;
    }
    any && all
}


// ── transitions ─────────────────────────────────────────────────────────

/// `list` joined by `sep` (`[..].join(sep)`).
pub open spec fn join(list: Seq<Seq<char>>, sep: Seq<char>) -> Seq<char>
    decreases list.len(),
{
    if list.len() == 0 {
        Seq::empty()
    } else if list.len() == 1 {
        list[0]
    } else {
        join(list.drop_last(), sep) + sep + list.last()
    }
}

pub open spec fn or_zero(v: Option<i64>) -> int {
    match v {
        Some(x) => x as int,
        None => 0,
    }
}

/// The wrong-model event, present whenever the verdict is "mismatch".
pub open spec fn mismatch_events(next: RobotIn, ts: i64) -> Seq<RobotEventView> {
    if work_id_mismatch_spec(next) == Some(true) {
        let st = next.jig.stations@[active_index(next.jig.stations@)->0];
        seq![
            ev(
                RobotEventKind::WorkIdMismatch,
                ts,
                Some(st.no),
                next.model_no,
                "HMI 차종 "@ + dec(or_zero(next.model_no)) + " ↔ JIG "@ + dec(st.no as int) + " 차체 "@
                    + dec(or_zero(st.work_id)) + " — 오도장 위험"@,
            ),
        ]
    } else {
        Seq::empty()
    }
}

/// The streak after this snapshot: reset when nothing disagrees.
pub open spec fn next_streak(next: RobotIn, streak: u32) -> int {
    if disagreeing(next).len() == 0 {
        0
    } else {
        streak + 1
    }
}

/// The I/O disagreement alarm, raised exactly when the streak reaches its threshold.
pub open spec fn io_events(next: RobotIn, ts: i64, streak: u32) -> Seq<RobotEventView> {
    let d = disagreeing(next);
    let s = next_streak(next, streak);
    if d.len() != 0 && s == IO_DISAGREE_STREAK {
        seq![
            ev(
                RobotEventKind::IoDisagree,
                ts,
                None,
                next.model_no,
                "내부 릴레이와 출력 접점이 "@ + dec(s) + "회 연속 불일치: "@ + join(d, ", "@),
            ),
        ]
    } else {
        Seq::empty()
    }
}

/// Hand-off edges of one station.
pub open spec fn station_events(p: JigStation, n: JigStation, ts: i64) -> Seq<RobotEventView> {
    (if rose_spec(p.send_to_robot, n.send_to_robot) {
        seq![
            ev(
                RobotEventKind::JigHandoff,
                ts,
                Some(n.no),
                n.work_id,
                "JIG "@ + dec(n.no as int) + " 차체 "@ + dec(or_zero(n.work_id)) + " 정보를 로봇으로 전송 시작"@,
            ),
        ]
    } else {
        Seq::empty()
    }) + (if rose_spec(p.send_done, n.send_done) {
        seq![ev(RobotEventKind::JigHandoffDone, ts, Some(n.no), n.work_id, "JIG "@ + dec(n.no as int) + " 전송 완료"@)]
    } else {
        Seq::empty()
    })
}

/// Hand-off edges of the first `k` stations that both snapshots have.
pub open spec fn stations_events(ps: Seq<JigStation>, ns: Seq<JigStation>, ts: i64, k: int) -> Seq<
    RobotEventView,
>
    decreases k,
{
    if k <= 0 {
        Seq::empty()
    } else {
        stations_events(ps, ns, ts, k - 1) + if k - 1 < ps.len() && k - 1 < ns.len() {
            station_events(ps[k - 1], ns[k - 1], ts)
        } else {
            Seq::empty()
        }
    }
}

pub open spec fn active_no(snap: RobotIn) -> Option<i64> {
    match active_index(snap.jig.stations@) {
        Some(i) => Some(snap.jig.stations@[i].no),
        None => None,
    }
}

/// Job start/end edges of `di.job_in_progress`.
pub open spec fn job_events(prev: RobotIn, next: RobotIn, ts: i64) -> Seq<RobotEventView> {
    let pj = bit_of(prev.robot.di@, "job_in_progress"@);
    let nj = bit_of(next.robot.di@, "job_in_progress"@);
    (if rose_spec(pj, nj) {
        seq![ev(RobotEventKind::RobotJobStarted, ts, active_no(next), next.model_no, "로봇 JOB 착수"@)]
    } else {
        Seq::empty()
    }) + (if fell_spec(pj, nj) {
        seq![ev(RobotEventKind::RobotJobEnded, ts, active_no(next), next.model_no, "로봇 JOB 종료 (1사이클)"@)]
    } else {
        Seq::empty()
    })
}

/// A completed WORK ID that changed to a non-zero value is one finished cycle.
pub open spec fn cycle_events(prev: RobotIn, next: RobotIn, ts: i64) -> Seq<RobotEventView> {
    let w = next.jig.completed.work_id;
    if prev.jig.completed.work_id != w && w is Some && w->0 != 0 {
        seq![ev(RobotEventKind::CycleCompleted, ts, None, w, "차종 "@ + dec(w->0 as int) + " 도장 1사이클 완료"@)]
    } else {
        Seq::empty()
    }
}

/// Rising alarm edges among the first `n` entries of a group.
pub open spec fn alarm_edges(
    g: Seq<char>,
    pm: BitsView,
    nm: BitsView,
    ts: i64,
    model_no: Option<i64>,
    n: int,
) -> Seq<RobotEventView>
    decreases n,
{
    if n <= 0 || n > nm.len() {
        Seq::empty()
    } else {
        let k = nm[n - 1].0;
        alarm_edges(g, pm, nm, ts, model_no, n - 1) + if rose_spec(bit_of(pm, k), nm[n - 1].1) {
            if contains_sub(k, "estop"@) {
                seq![ev(RobotEventKind::EStop, ts, None, model_no, g + "."@ + k + " 발생"@)]
            } else if contains_sub(k, "fault"@) {
                seq![ev(RobotEventKind::RobotFault, ts, None, model_no, g + "."@ + k + " 발생"@)]
            } else {
                Seq::empty()
            }
        } else {
            Seq::empty()
        }
    }
}

/// Rising alarm edges over the first `n` alarm groups.
pub open spec fn fault_events_upto(prev: RobotIn, next: RobotIn, ts: i64, n: int) -> Seq<
    RobotEventView,
>
    decreases n,
{
    if n <= 0 {
        Seq::empty()
    } else {
        let g = fault_group_name(n - 1);
        fault_events_upto(prev, next, ts, n - 1) + match (
            fault_group_bits(prev, g),
            fault_group_bits(next, g),
        ) {
            (Some(pm), Some(nm)) => alarm_edges(g, pm, nm, ts, next.model_no, nm.len() as int),
            _ => Seq::empty(),
        }
    }
}

/// Edges against a usable previous snapshot.
pub open spec fn edge_events(prev: RobotIn, next: RobotIn, ts: i64) -> Seq<RobotEventView> {
    stations_events(prev.jig.stations@, next.jig.stations@, ts, next.jig.stations@.len() as int)
        + job_events(prev, next, ts) + cycle_events(prev, next, ts) + fault_events_upto(
        prev,
        next,
        ts,
        FAULT_GROUP_COUNT as int,
    )
}

/// The events of a snapshot and the updated disagreement streak.
pub open spec fn detect_spec(prev: Option<RobotIn>, next: RobotIn, ts: i64, streak: u32) -> (Seq<
    RobotEventView,
>, int) {
    if degraded(next) {
        (Seq::empty(), streak as int)
    } else {
        let base = mismatch_events(next, ts) + io_events(next, ts, streak);
        let s = next_streak(next, streak);
        match prev {
            None => (base, s),
            Some(p) => if degraded(p) {
                (base, s)
            } else {
                (base + edge_events(p, next, ts), s)
            },
        }
    }
}

fn make_event(
    kind: RobotEventKind,
    ts_ms: i64,
    jig_no: Option<i64>,
    model_no: Option<i64>,
    detail: String,
) -> (r: RobotEvent)
    ensures
        r@ == ev(kind, ts_ms, jig_no, model_no, detail@),
{
    RobotEvent { kind, ts_ms, jig_no, model_no, detail }
}

fn unwrap_or_zero(v: Option<i64>) -> (r: i64)
    ensures
        r as int == or_zero(v),
{
    match v {
        Some(x) => x,
        None => 0,
    }
}

fn push_event(out: &mut Vec<RobotEvent>, e: RobotEvent)
    ensures
        events_view(final(out)@) == events_view(old(out)@).push(e@),
{
    out.push(e);
    assert(events_view(out@) =~= events_view(old(out)@).push(e@));
}

fn join_strs(list: &Vec<&'static str>, sep: &str) -> (r: String)
    ensures
        r@ == join(strs_view(list@), sep@),
{
    let mut r = String::new();
    let mut i: usize = 0;
    while i < list.len()
        invariant
            0 <= i <= list.len(),
            r@ == join(strs_view(list@).take(i as int), sep@),
        decreases list.len() - i,
    {
        let ghost prev = strs_view(list@).take(i as int);
        if i != 0 {
            push_str(&mut r, sep);
        }
        push_str(&mut r, list[i]);
        assert(strs_view(list@).take(i + 1).drop_last() =~= prev);
        i = i + 1;
    }
    assert(strs_view(list@).take(list.len() as int) =~= strs_view(list@));
    r
}

fn station_edges(out: &mut Vec<RobotEvent>, p: &JigStation, st: &JigStation, ts_ms: i64)
    ensures
        events_view(final(out)@) == events_view(old(out)@) + station_events(*p, *st, ts_ms),
{
    let ghost start = events_view(out@);
    if rose(p.send_to_robot, st.send_to_robot) {
        let mut d = String::new();
        push_str(&mut d, "JIG ");
        push_i64(&mut d, st.no);
        push_str(&mut d, " 차체 ");
        push_i64(&mut d, unwrap_or_zero(st.work_id));
        push_str(&mut d, " 정보를 로봇으로 전송 시작");
        push_event(out, make_event(RobotEventKind::JigHandoff, ts_ms, Some(st.no), st.work_id, d));
    }
    let ghost mid = events_view(out@);
    if rose(p.send_done, st.send_done) {
        let mut d = String::new();
        push_str(&mut d, "JIG ");
        push_i64(&mut d, st.no);
        push_str(&mut d, " 전송 완료");
        push_event(out, make_event(RobotEventKind::JigHandoffDone, ts_ms, Some(st.no), st.work_id, d));
    }
    assert(events_view(out@) =~= start + station_events(*p, *st, ts_ms));
}

fn alarm_group_edges(
    out: &mut Vec<RobotEvent>,
    grp: &str,
    pm: &BitMap,
    nm: &BitMap,
    ts_ms: i64,
    model_no: Option<i64>,
)
    ensures
        events_view(final(out)@) == events_view(old(out)@) + alarm_edges(
            grp@,
            pm@,
            nm@,
            ts_ms,
            model_no,
            nm@.len() as int,
        ),
{
    let ghost start = events_view(out@);
    let n = nm.len();
    let mut i: usize = 0;
    while i < n
        invariant
            n == nm@.len(),
            0 <= i <= n,
            events_view(out@) == start + alarm_edges(grp@, pm@, nm@, ts_ms, model_no, i as int),
        decreases n - i,
    {
        let k = nm.key_at(i);
        let v = nm.value_at(i);
        let ghost before = events_view(out@);
        if rose(bit(pm, k.as_str()), v) {
            let kind = if str_contains(k.as_str(), "estop") {
                Some(RobotEventKind::EStop)
            } else if str_contains(k.as_str(), "fault") {
                Some(RobotEventKind::RobotFault)
            } else {
                None
            };
            if let Some(kind) = kind {
                let mut d = String::new();
                push_str(&mut d, grp);
                push_str(&mut d, ".");
                push_str(&mut d, k.as_str());
                push_str(&mut d, " 발생");
                push_event(out, make_event(kind, ts_ms, None, model_no, d));
            }
        }
        assert(events_view(out@) =~= start + alarm_edges(grp@, pm@, nm@, ts_ms, model_no, i + 1));
        i = i + 1;
    }
}

fn mismatch_edge(out: &mut Vec<RobotEvent>, next: &RobotIn, ts_ms: i64)
    ensures
        events_view(final(out)@) == events_view(old(out)@) + mismatch_events(*next, ts_ms),
{
    let ghost start = events_view(out@);
    if work_id_mismatch(next) == Some(true) {
        let st = active_station(next);
        let st_no = match st {
            Some(s) => Some(s.no),
            None => None,
        };
        let wid = match st {
            Some(s) => s.work_id,
            None => None,
        };
        let mut d = String::new();
        push_str(&mut d, "HMI 차종 ");
        push_i64(&mut d, unwrap_or_zero(next.model_no));
        push_str(&mut d, " ↔ JIG ");
        push_i64(&mut d, unwrap_or_zero(st_no));
        push_str(&mut d, " 차체 ");
        push_i64(&mut d, unwrap_or_zero(wid));
        push_str(&mut d, " — 오도장 위험");
        push_event(out, make_event(RobotEventKind::WorkIdMismatch, ts_ms, st_no, next.model_no, d));
    }
    assert(events_view(out@) =~= start + mismatch_events(*next, ts_ms));
}

fn io_edge(out: &mut Vec<RobotEvent>, next: &RobotIn, ts_ms: i64, io_streak: u32) -> (streak: u32)
    requires
        disagreeing(*next).len() != 0 ==> io_streak < u32::MAX,
    ensures
        streak as int == next_streak(*next, io_streak),
        events_view(final(out)@) == events_view(old(out)@) + io_events(*next, ts_ms, io_streak),
{
    let ghost start = events_view(out@);
    let disagree = io_disagreements(next);
    let streak: u32 = if disagree.len() == 0 {
        0
    } else {
        io_streak + 1
    };
    if disagree.len() != 0 && streak == IO_DISAGREE_STREAK {
        let mut d = String::new();
        push_str(&mut d, "내부 릴레이와 출력 접점이 ");
        push_u64(&mut d, streak as u64);
        push_str(&mut d, "회 연속 불일치: ");
        let joined = join_strs(&disagree, ", ");
        push_str(&mut d, joined.as_str());
        push_event(out, make_event(RobotEventKind::IoDisagree, ts_ms, None, next.model_no, d));
    }
    assert(events_view(out@) =~= start + io_events(*next, ts_ms, io_streak));
    streak
}

fn handoff_edges(out: &mut Vec<RobotEvent>, prev: &RobotIn, next: &RobotIn, ts_ms: i64)
    ensures
        events_view(final(out)@) == events_view(old(out)@) + stations_events(
            prev.jig.stations@,
            next.jig.stations@,
            ts_ms,
            next.jig.stations@.len() as int,
        ),
{
    let ghost base = events_view(out@);
    let n = next.jig.stations.len();
    let mut i: usize = 0;
    while i < n
        invariant
            n == next.jig.stations@.len(),
            0 <= i <= n,
            events_view(out@) == base + stations_events(prev.jig.stations@, next.jig.stations@, ts_ms, i as int),
        decreases n - i,
    {
        if i < prev.jig.stations.len() {
            station_edges(out, &prev.jig.stations[i], &next.jig.stations[i], ts_ms);
        }
        assert(events_view(out@) =~= base + stations_events(prev.jig.stations@, next.jig.stations@, ts_ms, i + 1));
        i = i + 1;
    }
}

fn job_edges(out: &mut Vec<RobotEvent>, prev: &RobotIn, next: &RobotIn, ts_ms: i64)
    ensures
        events_view(final(out)@) == events_view(old(out)@) + job_events(*prev, *next, ts_ms),
{
    let ghost start = events_view(out@);
    let pj = bit(&prev.robot.di, "job_in_progress");
    let nj = bit(&next.robot.di, "job_in_progress");
    let a = match active_station(next) {
        Some(s) => Some(s.no),
        None => None,
    };
    if rose(pj, nj) {
        let mut d = String::new();
        push_str(&mut d, "로봇 JOB 착수");
        push_event(out, make_event(RobotEventKind::RobotJobStarted, ts_ms, a, next.model_no, d));
    }
    if fell(pj, nj) {
        let mut d = String::new();
        push_str(&mut d, "로봇 JOB 종료 (1사이클)");
        push_event(out, make_event(RobotEventKind::RobotJobEnded, ts_ms, a, next.model_no, d));
    }
    assert(events_view(out@) =~= start + job_events(*prev, *next, ts_ms));
}

fn cycle_edge(out: &mut Vec<RobotEvent>, prev: &RobotIn, next: &RobotIn, ts_ms: i64)
    ensures
        events_view(final(out)@) == events_view(old(out)@) + cycle_events(*prev, *next, ts_ms),
{
    let ghost start = events_view(out@);
    // A completed WORK ID that changes is one cycle; dropping to 0 is a reset.
    if prev.jig.completed.work_id != next.jig.completed.work_id {
        if let Some(w) = next.jig.completed.work_id {
            if w != 0 {
                let mut d = String::new();
                push_str(&mut d, "차종 ");
                push_i64(&mut d, w);
                push_str(&mut d, " 도장 1사이클 완료");
                push_event(out, make_event(RobotEventKind::CycleCompleted, ts_ms, None, Some(w), d));
            }
        }
    }
    assert(events_view(out@) =~= start + cycle_events(*prev, *next, ts_ms));
}

fn fault_edges(out: &mut Vec<RobotEvent>, prev: &RobotIn, next: &RobotIn, ts_ms: i64)
    ensures
        events_view(final(out)@) == events_view(old(out)@) + fault_events_upto(
            *prev,
            *next,
            ts_ms,
            FAULT_GROUP_COUNT as int,
        ),
{
    let ghost start = events_view(out@);
    let mut gi: usize = 0;
    while gi < FAULT_GROUP_COUNT
        invariant
            0 <= gi <= FAULT_GROUP_COUNT,
            events_view(out@) == start + fault_events_upto(*prev, *next, ts_ms, gi as int),
        decreases FAULT_GROUP_COUNT - gi,
    {
        let grp = fault_group(gi);
        if str_eq(grp, "alarm") {
            alarm_group_edges(out, grp, &prev.robot.alarm, &next.robot.alarm, ts_ms, next.model_no);
        } else if str_eq(grp, "di") {
            alarm_group_edges(out, grp, &prev.robot.di, &next.robot.di, ts_ms, next.model_no);
        }
        assert(events_view(out@) =~= start + fault_events_upto(*prev, *next, ts_ms, gi + 1));
        gi = gi + 1;
    }
}

/// Derives events by comparing a snapshot with the previous one.
///
/// A snapshot with read errors yields nothing and leaves `io_streak` as it
/// was. Without a usable previous snapshot only the state-based events (wrong
/// model, I/O disagreement streak) are produced; edges need a baseline. The
/// returned streak is what the caller passes in next time.
pub fn detect_events(prev: Option<&RobotIn>, next: &RobotIn, ts_ms: i64, io_streak: u32) -> (r: (
    Vec<RobotEvent>,
    u32,
))
    requires
        !degraded(*next) && disagreeing(*next).len() != 0 ==> io_streak < u32::MAX,
    ensures
        events_view(r.0@) == detect_spec(
            match prev {
                Some(p) => Some(*p),
                None => None,
            },
            *next,
            ts_ms,
            io_streak,
        ).0,
        r.1 as int == detect_spec(
            match prev {
                Some(p) => Some(*p),
                None => None,
            },
            *next,
            ts_ms,
            io_streak,
        ).1,
{
    let mut out: Vec<RobotEvent> = Vec::new();
    assert(events_view(out@) =~= Seq::<RobotEventView>::empty());
    if is_degraded(next) {
        return (out, io_streak);
    }
    mismatch_edge(&mut out, next, ts_ms);
    let streak = io_edge(&mut out, next, ts_ms, io_streak);
    let prev = match prev {
        Some(p) => p,
        None => return (out, streak),
    };
    if is_degraded(prev) {
        return (out, streak);
    }
    let ghost base = events_view(out@);
    handoff_edges(&mut out, prev, next, ts_ms);
    job_edges(&mut out, prev, next, ts_ms);
    cycle_edge(&mut out, prev, next, ts_ms);
    fault_edges(&mut out, prev, next, ts_ms);
    assert(events_view(out@) =~= base + edge_events(*prev, *next, ts_ms));
    (out, streak)
}

} // verus!
