//! Payload and response shapes shared by the edge, the gateway and the
//! dashboard, and the value rules that a robot-interface snapshot must meet.

use vstd::prelude::*;
use crate::text::{all_ws, push_i64, push_str, push_u64, trims_to_empty, chars_eq, chars_lt, chars_of, dec, lemma_lex_asymmetric, lemma_lex_irreflexive, lemma_lex_total, lemma_lex_transitive, lex_lt};

verus! {

/// How a job's PLC-side and camera-side model numbers relate.
#[derive(Debug, Clone, Copy, PartialEq, Eq, Structural)]
pub enum MatchStatus {
    Matched,
    Mismatch,
    PlcOnly,
    CameraOnly,
}

/// The snake_case name a status is stored and served under.
pub open spec fn match_status_name(s: MatchStatus) -> Seq<char> {
    match s {
        MatchStatus::Matched => "matched"@,
        MatchStatus::Mismatch => "mismatch"@,
        MatchStatus::PlcOnly => "plc_only"@,
        MatchStatus::CameraOnly => "camera_only"@,
    }
}

impl MatchStatus {
    pub fn as_str(self) -> (r: &'static str)
        ensures
            r@ == match_status_name(self),
    {
        match self {
            MatchStatus::Matched => "matched",
            MatchStatus::Mismatch => "mismatch",
            MatchStatus::PlcOnly => "plc_only",
            MatchStatus::CameraOnly => "camera_only",
        }
    }
}

/// Incoming job record. Timestamps are epoch milliseconds; `confidence_bits`
/// carries the IEEE-754 bit pattern of the reading's confidence, which the
/// library passes through without interpreting.
#[derive(Debug, Clone)]
pub struct JobIn {
    pub event_id: String,
    pub edge_id: String,
    pub plc_model_no: Option<String>,
    pub camera_model_no: Option<String>,
    pub plc_ts: Option<i64>,
    pub camera_ts: Option<i64>,
    pub confidence_bits: Option<u64>,
    pub image_ref: Option<String>,
}

#[derive(Debug, Clone)]
pub struct IngestResponse {
    pub accepted: u32,
    pub duplicates: u32,
    pub rejected: Vec<Rejected>,
}

#[derive(Debug, Clone)]
pub struct Rejected {
    pub event_id: String,
    pub reason: String,
}

#[derive(Debug, Clone)]
pub struct BatchIn {
    pub edge_id: String,
    pub jobs: Vec<JobIn>,
}

#[derive(Debug, Clone)]
pub struct ModelCount {
    pub model_no: String,
    pub job_count: u64,
    pub mismatch_count: u64,
}

#[derive(Debug, Clone)]
pub struct DailyStats {
    /// YYYY-MM-DD
    pub work_date: String,
    pub total_jobs: u64,
    pub mismatch_jobs: u64,
    pub models: Vec<ModelCount>,
}

/// PLC-only state update; `plc_ts` in epoch milliseconds.
#[derive(Debug, Clone)]
pub struct PlcModelIn {
    pub edge_id: String,
    pub model_no: String,
    pub plc_ts: Option<i64>,
}

#[derive(Debug, Clone)]
pub struct PlcCurrent {
    pub model_no: Option<String>,
    pub edge_id: Option<String>,
    pub plc_ts: Option<i64>,
    pub event_id: Option<String>,
    pub camera_model_no: Option<String>,
    pub camera_ts: Option<i64>,
}

/// One paint parameter's master (`table`) and applied values, `levels` each.
#[derive(Debug, Clone)]
pub struct RecipeParam {
    pub table: Vec<i64>,
    pub applied: Vec<i64>,
}

#[derive(Debug, Clone)]
pub struct RecipeSet {
    pub atomization: RecipeParam,
    pub pattern: RecipeParam,
    pub flow: RecipeParam,
}

#[derive(Debug, Clone)]
pub struct RecipeIn {
    pub edge_id: String,
    pub model_no: i64,
    pub model_name: String,
    pub levels: i64,
    pub recipe: RecipeSet,
}

// ── robot interface ──────────────────────────────────────────────────────

/// The abstract content of a bit group: keys in ascending order, each with a
/// three-state value (`None` = the word block could not be read).
pub type BitsView = Seq<(Seq<char>, Option<bool>)>;

/// Keys strictly ascending (hence distinct).
pub open spec fn bits_sorted(m: BitsView) -> bool {
    forall|i: int, j: int| 0 <= i < j < m.len() ==> lex_lt(#[trigger] m[i].0, #[trigger] m[j].0)
}

/// The value stored under `k`, if the key is present (first match).
pub open spec fn bits_get(m: BitsView, k: Seq<char>) -> Option<Option<bool>>
    decreases m.len(),
{
    if m.len() == 0 {
        None
    } else if m[0].0 == k {
        Some(m[0].1)
    } else {
        bits_get(m.drop_first(), k)
    }
}

/// A named group of three-state bits, ordered by key. Unknown keys are kept.
#[derive(Debug)]
pub struct BitMap {
    entries: Vec<(String, Option<bool>)>,
}

impl View for BitMap {
    type V = BitsView;

    closed spec fn view(&self) -> BitsView {
        entries_view(self.entries@)
    }
}

spec fn entries_view(es: Seq<(String, Option<bool>)>) -> BitsView {
    Seq::new(es.len(), |i: int| (es[i].0@, es[i].1))
}

impl Clone for BitMap {
    fn clone(&self) -> (r: BitMap)
        ensures
            r@ == self@,
    {
        proof { use_type_invariant(self); }
        let mut entries: Vec<(String, Option<bool>)> = Vec::new();
        let mut i: usize = 0;
        while i < self.entries.len()
            invariant
                0 <= i <= self.entries.len(),
                entries@.len() == i,
                forall|j: int| 0 <= j < i ==> (#[trigger] entries@[j]).0@ == self.entries@[j].0@ && entries@[j].1 == self.entries@[j].1,
            decreases self.entries.len() - i,
        {
            let k = self.entries[i].0.clone();
            entries.push((k, self.entries[i].1));
            i = i + 1;
        }
        assert(entries_view(entries@) =~= entries_view(self.entries@));
        BitMap { entries }
    }
}

impl BitMap {
    /// The keys of a bit map always ascend.
    #[verifier::type_invariant]
    pub open spec fn keys_ascending(self) -> bool {
        bits_sorted(self@)
    }

    pub fn new() -> (r: BitMap)
        ensures
            r@ == Seq::<(Seq<char>, Option<bool>)>::empty(),
    {
        let r = BitMap { entries: Vec::new() };
        assert(r@ =~= Seq::<(Seq<char>, Option<bool>)>::empty());
        r
    }

    /// The number of entries; the keys always ascend.
    pub fn len(&self) -> (r: usize)
        ensures
            r == self@.len(),
            bits_sorted(self@),
    {
        proof { use_type_invariant(self); }
        self.entries.len()
    }

    /// The key at position `i`.
    pub fn key_at(&self, i: usize) -> (r: &String)
        requires
            i < self@.len(),
        ensures
            r@ == self@[i as int].0,
            bits_sorted(self@),
    {
        proof { use_type_invariant(self); }
        &self.entries[i].0
    }

    /// The value at position `i`.
    pub fn value_at(&self, i: usize) -> (r: Option<bool>)
        requires
            i < self@.len(),
        ensures
            r == self@[i as int].1,
            bits_sorted(self@),
    {
        proof { use_type_invariant(self); }
        self.entries[i].1
    }

    /// The value under `k`; `None` when the key is absent.
    pub fn get(&self, k: &str) -> (r: Option<Option<bool>>)
        ensures
            r == bits_get(self@, k@),
            bits_sorted(self@),
    {
        proof { use_type_invariant(self); }
        let kc = chars_of(k);
        let mut i: usize = 0;
        assert(self@.skip(0) =~= self@);
        while i < self.entries.len()
            invariant
                0 <= i <= self@.len(),
                self@.len() == self.entries.len(),
                kc@ == k@,
                bits_get(self@, k@) == bits_get(self@.skip(i as int), k@),
                bits_sorted(self@),
            decreases self.entries.len() - i,
        {
            let ec = chars_of(self.entries[i].0.as_str());
            assert(self@.skip(i as int)[0] == self@[i as int]);
            if chars_eq(&ec, &kc) {
                return Some(self.entries[i].1);
            }
            assert(self@.skip(i as int).drop_first() =~= self@.skip(i + 1));
            i = i + 1;
        }
        None
    }

    /// Stores `v` under `k`, replacing an existing value; order is kept.
    pub fn insert(&mut self, k: String, v: Option<bool>)
        ensures
            bits_sorted(final(self)@),
            (exists|p: int|
                0 <= p < old(self)@.len() && old(self)@[p].0 == k@ && final(self)@ == old(self)@.update(p, (k@, v)))
            || ((forall|q: int| 0 <= q < old(self)@.len() ==> old(self)@[q].0 != k@)
                && exists|p: int| 0 <= p <= old(self)@.len() && final(self)@ == old(self)@.insert(p, (k@, v))),
    {
        proof { use_type_invariant(&*self); }
        let kc = chars_of(k.as_str());
        let n = self.entries.len();
        let mut i: usize = 0;
        while i < n
            invariant
                n == self.entries.len(),
                0 <= i <= n,
                self@.len() == n,
                kc@ == k@,
                forall|q: int| 0 <= q < i ==> lex_lt(#[trigger] self@[q].0, k@),
            ensures
                0 <= i <= n,
                self@.len() == n,
                forall|q: int| 0 <= q < i ==> lex_lt(#[trigger] self@[q].0, k@),
                i < n ==> !lex_lt(self@[i as int].0, k@),
            decreases n - i,
        {
            let ec = chars_of(self.entries[i].0.as_str());
            assert(self@[i as int].0 == ec@);
            if !chars_lt(&ec, &kc) {
                break;
            }
            i = i + 1;
        }
        let ghost old_view = self@;
        if i < n {
            let ec = chars_of(self.entries[i].0.as_str());
            if chars_eq(&ec, &kc) {
                proof {
                    assert forall|a: int, b: int| 0 <= a < b < old_view.len() implies
                        lex_lt(#[trigger] old_view.update(i as int, (k@, v))[a].0, #[trigger] old_view.update(i as int, (k@, v))[b].0) by {
                        assert(lex_lt(old_view[a].0, old_view[b].0));
                    }
                }
                let mut entries = Vec::new();
                std::mem::swap(&mut entries, &mut self.entries);
                entries.set(i, (k, v));
                assert(entries_view(entries@) =~= old_view.update(i as int, (k@, v)));
                self.entries = entries;
                return;
            }
            proof {
                lemma_lex_total(ec@, kc@);
            }
        }
        proof {
            assert forall|q: int| 0 <= q < n implies old_view[q].0 != k@ by {
                if q < i {
                    lemma_lex_irreflexive(k@);
                } else {
                    if q > i {
                        assert(lex_lt(old_view[i as int].0, old_view[q].0));
                        if old_view[q].0 == k@ {
                            lemma_lex_asymmetric(old_view[i as int].0, k@);
                        }
                    } else {
                        lemma_lex_irreflexive(k@);
                    }
                }
            }
            let nv = old_view.insert(i as int, (k@, v));
            assert forall|a: int, b: int| 0 <= a < b < nv.len() implies lex_lt(#[trigger] nv[a].0, #[trigger] nv[b].0) by {
                if b < i {
                    assert(lex_lt(old_view[a].0, old_view[b].0));
                } else if b == i {
                    assert(nv[b].0 == k@);
                } else if a < i {
                    assert(nv[b] == old_view[b - 1]);
                    if a < b - 1 {
                        assert(lex_lt(old_view[a].0, old_view[b - 1].0));
                    }
                } else if a == i {
                    assert(nv[b] == old_view[b - 1]);
                    if b - 1 > i {
                        assert(lex_lt(old_view[i as int].0, old_view[b - 1].0));
                        lemma_lex_transitive(k@, old_view[i as int].0, old_view[b - 1].0);
                    }
                } else {
                    assert(lex_lt(old_view[a - 1].0, old_view[b - 1].0));
                }
            }
        }
        let mut entries = Vec::new();
        std::mem::swap(&mut entries, &mut self.entries);
        entries.insert(i, (k, v));
        assert(entries_view(entries@) =~= old_view.insert(i as int, (k@, v)));
        self.entries = entries;
    }
}


/// Robot interface bit groups. `command` (internal relays) and `out` (the
/// physical output contacts, `do` on the wire) share key names but are never
/// merged.
#[derive(Debug, Clone)]
pub struct RobotIo {
    pub command: BitMap,
    pub state: BitMap,
    pub alarm: BitMap,
    pub out: BitMap,
    pub di: BitMap,
}

impl Default for RobotIo {
    fn default() -> (r: RobotIo)
        ensures
            r.command@.len() == 0,
            r.state@.len() == 0,
            r.alarm@.len() == 0,
            r.out@.len() == 0,
            r.di@.len() == 0,
    {
        RobotIo {
            command: BitMap::new(),
            state: BitMap::new(),
            alarm: BitMap::new(),
            out: BitMap::new(),
            di: BitMap::new(),
        }
    }
}

/// One cell of the five-stage JIG shift register; `no` is 1..=5.
#[derive(Debug, Clone, Copy)]
pub struct JigStation {
    pub no: i64,
    pub work_id: Option<i64>,
    /// 0 = no work piece, otherwise loaded.
    pub work_in: Option<i64>,
    pub shift_dist: Option<i64>,
    pub job_start_dist: Option<i64>,
    pub send_to_robot: Option<bool>,
    pub job_start: Option<bool>,
    pub send_done: Option<bool>,
}

impl Default for JigStation {
    fn default() -> (r: JigStation)
        ensures
            r == (JigStation {
                no: 0,
                work_id: None,
                work_in: None,
                shift_dist: None,
                job_start_dist: None,
                send_to_robot: None,
                job_start: None,
                send_done: None,
            }),
    {
        JigStation {
            no: 0,
            work_id: None,
            work_in: None,
            shift_dist: None,
            job_start_dist: None,
            send_to_robot: None,
            job_start: None,
            send_done: None,
        }
    }
}

#[derive(Debug, Clone, Copy)]
pub struct JigCompleted {
    pub work_id: Option<i64>,
    pub work_in: Option<i64>,
}

impl Default for JigCompleted {
    fn default() -> (r: JigCompleted)
        ensures
            r == (JigCompleted { work_id: None, work_in: None }),
    {
        JigCompleted { work_id: None, work_in: None }
    }
}

#[derive(Debug, Clone)]
pub struct JigIn {
    pub shift_distance: Option<i64>,
    pub chattering_guard: Option<i64>,
    pub start_sig_start_dist: Option<i64>,
    pub start_sig_end_dist: Option<i64>,
    pub common: BitMap,
    /// Always five, ascending `no`.
    pub stations: Vec<JigStation>,
    pub completed: JigCompleted,
}

impl Default for JigIn {
    fn default() -> (r: JigIn)
        ensures
            r.shift_distance is None,
            r.chattering_guard is None,
            r.start_sig_start_dist is None,
            r.start_sig_end_dist is None,
            r.common@.len() == 0,
            r.stations@.len() == 0,
            r.completed == (JigCompleted { work_id: None, work_in: None }),
    {
        JigIn {
            shift_distance: None,
            chattering_guard: None,
            start_sig_start_dist: None,
            start_sig_end_dist: None,
            common: BitMap::new(),
            stations: Vec::new(),
            completed: JigCompleted::default(),
        }
    }
}

/// One robot-interface snapshot posted by the edge reader.
#[derive(Debug, Clone)]
pub struct RobotIn {
    pub edge_id: String,
    pub robot_model: Option<String>,
    /// HMI model number; values outside 1..=8 are accepted and flagged.
    pub model_no: Option<i64>,
    pub robot: RobotIo,
    pub jig: JigIn,
    /// Empty when every word block was read.
    pub read_errors: Vec<String>,
}

pub const JIG_STATIONS: usize = 5;

/// The message for an integer outside the signed 16-bit range, if it is.
pub open spec fn int16_error(name: Seq<char>, v: Option<i64>) -> Option<Seq<char>> {
    match v {
        Some(n) => if -32768 <= n <= 32767 {
            None
        } else {
            Some(name + ": "@ + dec(n as int) + " is outside INT16 range"@)
        },
        None => None,
    }
}

/// The first of two optional errors.
pub open spec fn first_err(a: Option<Seq<char>>, b: Option<Seq<char>>) -> Option<Seq<char>> {
    if a is Some {
        a
    } else {
        b
    }
}

/// `jig.stations[{no}].{field}`
pub open spec fn station_field(no: i64, field: Seq<char>) -> Seq<char> {
    "jig.stations["@ + dec(no as int) + "]."@ + field
}

/// The first INT16 violation among one station's words.
pub open spec fn station_int_error(st: JigStation) -> Option<Seq<char>> {
    first_err(
        int16_error(station_field(st.no, "work_id"@), st.work_id),
        first_err(
            int16_error(station_field(st.no, "work_in"@), st.work_in),
            first_err(
                int16_error(station_field(st.no, "shift_dist"@), st.shift_dist),
                int16_error(station_field(st.no, "job_start_dist"@), st.job_start_dist),
            ),
        ),
    )
}

/// The first INT16 violation among stations `i..`.
pub open spec fn stations_int_error(sts: Seq<JigStation>, i: int) -> Option<Seq<char>>
    decreases sts.len() - i,
{
    if i < 0 || i >= sts.len() {
        None
    } else {
        first_err(station_int_error(sts[i]), stations_int_error(sts, i + 1))
    }
}

/// The first position `i..` whose station number is not `position + 1`.
pub open spec fn first_misnumbered(sts: Seq<JigStation>, i: int) -> Option<int>
    decreases sts.len() - i,
{
    if i < 0 || i >= sts.len() {
        None
    } else if sts[i].no != i + 1 {
        Some(i)
    } else {
        first_misnumbered(sts, i + 1)
    }
}

/// Why a snapshot is refused (the first rule it breaks), or `None`.
pub open spec fn robot_in_error(r: RobotIn) -> Option<Seq<char>> {
    let sts = r.jig.stations@;
    if all_ws(r.edge_id@) {
        Some("edge_id must be a non-empty string"@)
    } else if sts.len() != 5 {
        Some("jig.stations must have exactly "@ + dec(5) + " entries, got "@ + dec(sts.len() as int))
    } else {
        match first_misnumbered(sts, 0) {
            Some(i) => Some(
                "jig.stations["@ + dec(i) + "].no must be "@ + dec(i + 1) + ", got "@ + dec(
                    sts[i].no as int,
                ),
            ),
            None => first_err(
                int16_error("jig.shift_distance"@, r.jig.shift_distance),
                first_err(
                    int16_error("jig.chattering_guard"@, r.jig.chattering_guard),
                    first_err(
                        int16_error("jig.start_sig_start_dist"@, r.jig.start_sig_start_dist),
                        first_err(
                            int16_error("jig.start_sig_end_dist"@, r.jig.start_sig_end_dist),
                            first_err(
                                stations_int_error(sts, 0),
                                first_err(
                                    int16_error("jig.completed.work_id"@, r.jig.completed.work_id),
                                    first_err(
                                        int16_error(
                                            "jig.completed.work_in"@,
                                            r.jig.completed.work_in,
                                        ),
                                        int16_error("model_no"@, r.model_no),
                                    ),
                                ),
                            ),
                        ),
                    ),
                ),
            ),
        }
    }
}

fn check_int16(name: &str, v: Option<i64>) -> (r: Result<(), String>)
    ensures
        match r {
            Ok(_) => int16_error(name@, v) is None,
            Err(e) => int16_error(name@, v) == Some(e@),
        },
{
    match v {
        Some(n) => {
            if -32768 <= n && n <= 32767 {
                Ok(())
            } else {
                let mut e = String::new();
                push_str(&mut e, name);
                push_str(&mut e, ": ");
                push_i64(&mut e, n);
                push_str(&mut e, " is outside INT16 range");
                Err(e)
            }
        },
        None => Ok(()),
    }
}

fn station_name(no: i64, field: &str) -> (r: String)
    ensures
        r@ == station_field(no, field@),
{
    let mut e = String::new();
    push_str(&mut e, "jig.stations[");
    push_i64(&mut e, no);
    push_str(&mut e, "].");
    push_str(&mut e, field);
    e
}

fn check_station(st: &JigStation) -> (r: Result<(), String>)
    ensures
        match r {
            Ok(_) => station_int_error(*st) is None,
            Err(e) => station_int_error(*st) == Some(e@),
        },
{
    let n = st.no;
    check_int16(station_name(n, "work_id").as_str(), st.work_id)?;
    check_int16(station_name(n, "work_in").as_str(), st.work_in)?;
    check_int16(station_name(n, "shift_dist").as_str(), st.shift_dist)?;
    check_int16(station_name(n, "job_start_dist").as_str(), st.job_start_dist)?;
    Ok(())
}

impl RobotIn {
    /// Checks the value rules of a snapshot; the error names the first rule broken.
    #[verifier::loop_isolation(false)]
    pub fn validate(&self) -> (r: Result<(), String>)
        ensures
            match r {
                Ok(_) => robot_in_error(*self) is None,
                Err(e) => robot_in_error(*self) == Some(e@),
            },
    {
        if trims_to_empty(self.edge_id.as_str()) {
            let mut e = String::new();
            push_str(&mut e, "edge_id must be a non-empty string");
            return Err(e);
        }
        let n = self.jig.stations.len();
        if n != JIG_STATIONS {
            let mut e = String::new();
            push_str(&mut e, "jig.stations must have exactly ");
            push_u64(&mut e, JIG_STATIONS as u64);
            push_str(&mut e, " entries, got ");
            push_u64(&mut e, n as u64);
            return Err(e);
        }
        let mut i: usize = 0;
        while i < n
            invariant
                n == self.jig.stations@.len(),
                n == 5,
                0 <= i <= n,
                first_misnumbered(self.jig.stations@, 0) == first_misnumbered(self.jig.stations@, i as int),
            decreases n - i,
        {
            let no = self.jig.stations[i].no;
            if no != (i + 1) as i64 {
                assert(first_misnumbered(self.jig.stations@, i as int) == Some(i as int));
                let mut e = String::new();
                push_str(&mut e, "jig.stations[");
                push_u64(&mut e, i as u64);
                push_str(&mut e, "].no must be ");
                push_u64(&mut e, (i + 1) as u64);
                push_str(&mut e, ", got ");
                push_i64(&mut e, no);
                return Err(e);
            }
            i = i + 1;
        }
        assert(first_misnumbered(self.jig.stations@, n as int) is None);
        check_int16("jig.shift_distance", self.jig.shift_distance)?;
        check_int16("jig.chattering_guard", self.jig.chattering_guard)?;
        check_int16("jig.start_sig_start_dist", self.jig.start_sig_start_dist)?;
        check_int16("jig.start_sig_end_dist", self.jig.start_sig_end_dist)?;
        let mut j: usize = 0;
        while j < n
            invariant
                n == self.jig.stations@.len(),
                0 <= j <= n,
                stations_int_error(self.jig.stations@, 0) == stations_int_error(self.jig.stations@, j as int),
            decreases n - j,
        {
            let r = check_station(&self.jig.stations[j]);
            if r.is_err() {
                assert(stations_int_error(self.jig.stations@, j as int) == station_int_error(self.jig.stations@[j as int]));
                assert(first_misnumbered(self.jig.stations@, 0) is None);
                return r;
            }
            j = j + 1;
        }
        check_int16("jig.completed.work_id", self.jig.completed.work_id)?;
        check_int16("jig.completed.work_in", self.jig.completed.work_in)?;
        check_int16("model_no", self.model_no)?;
        Ok(())
    }

    /// The HMI model number is missing or outside 1..=8.
    pub fn model_no_out_of_range(&self) -> (r: bool)
        ensures
            r == !(self.model_no matches Some(m) && 1 <= m <= 8),
    {
        match self.model_no {
            Some(m) => !(1 <= m && m <= 8),
            None => true,
        }
    }
}

} // verus!
