//! Robot interface storage: `plc_robot_state` holds one row per edge that
//! every snapshot overwrites; `plc_robot_day` holds one row per day with the
//! derived events. CoreDB cannot delete, so raw snapshots are not kept.

use vstd::prelude::*;
use crate::coredb::{
    f_opt_i64, f_text, f_text_opt, keep_nonempty, nonempty, opt_i64, opt_str_view, req_text,
    req_text_opt, Cols, CoreDbClient, RawRow,
};
use crate::cql::{
    check_identifier, check_identifiers, first_invalid, insert_cql, insert_of, int_text,
    is_identifier, limit_of, push_limit, push_where_dates, push_where_eq, quote_text, quoted,
    rejects, select_cql, select_of, strings_of, where_dates, where_eq, RepoError,
};
use crate::plc_state::{or_empty, or_zero, text_or_empty, unwrap_or_empty};
use crate::text::dec;

verus! {

/// Most events one day's row keeps; older ones are dropped first. A row goes
/// out as one statement, so it cannot grow without bound.
pub const MAX_DAY_EVENTS: usize = 300;

#[derive(Debug, Clone)]
pub struct RobotStateRow {
    pub edge_id: String,
    pub robot_model: Option<String>,
    pub model_no: Option<i64>,
    /// The last snapshot as received.
    pub snapshot_json: String,
    /// JSON of the snapshot's `read_errors` array.
    pub read_errors: String,
    /// Whether the snapshot had failed reads: 0 or 1.
    pub degraded: i64,
    /// Consecutive snapshots in which a command and its output disagreed.
    pub io_streak: i64,
    pub received_at: i64,
}

pub struct RobotStateView {
    pub edge_id: Seq<char>,
    pub robot_model: Option<Seq<char>>,
    pub model_no: Option<i64>,
    pub snapshot_json: Seq<char>,
    pub read_errors: Seq<char>,
    pub degraded: i64,
    pub io_streak: i64,
    pub received_at: i64,
}

impl View for RobotStateRow {
    type V = RobotStateView;

    open spec fn view(&self) -> RobotStateView {
        RobotStateView {
            edge_id: self.edge_id@,
            robot_model: opt_str_view(self.robot_model),
            model_no: self.model_no,
            snapshot_json: self.snapshot_json@,
            read_errors: self.read_errors@,
            degraded: self.degraded,
            io_streak: self.io_streak,
            received_at: self.received_at,
        }
    }
}

pub const STATE_COLS: &'static str = "edge_id, robot_model, model_no, snapshot_json, read_errors, degraded, io_streak, received_at";

/// A model number is stored as `i64::MIN` when there is none, because 0
/// means "not entered on the HMI" and must stay distinct from "none".
pub open spec fn stored_model(n: i64) -> Option<i64> {
    if n == i64::MIN {
        None
    } else {
        Some(n)
    }
}

pub open spec fn errors_or_empty_list(o: Option<Seq<char>>) -> Seq<char> {
    match o {
        Some(s) => s,
        None => "[]"@,
    }
}

pub open spec fn robot_state_dec(cols: Cols) -> Result<RobotStateView, Seq<char>> {
    match f_text_opt(cols, "edge_id"@) {
        Err(e) => Err(e),
        Ok(edge) => match f_text_opt(cols, "robot_model"@) {
            Err(e) => Err(e),
            Ok(model) => match f_opt_i64(cols, "model_no"@) {
                Err(e) => Err(e),
                Ok(mno) => match f_text_opt(cols, "snapshot_json"@) {
                    Err(e) => Err(e),
                    Ok(snap) => match f_text_opt(cols, "read_errors"@) {
                        Err(e) => Err(e),
                        Ok(errs) => match f_opt_i64(cols, "degraded"@) {
                            Err(e) => Err(e),
                            Ok(dg) => match f_opt_i64(cols, "io_streak"@) {
                                Err(e) => Err(e),
                                Ok(st) => match f_opt_i64(cols, "received_at"@) {
                                    Err(e) => Err(e),
                                    Ok(ts) => Ok(RobotStateView {
                                        edge_id: or_empty(edge),
                                        robot_model: nonempty(model),
                                        model_no: stored_model(or_zero(mno)),
                                        snapshot_json: or_empty(snap),
                                        read_errors: errors_or_empty_list(errs),
                                        degraded: or_zero(dg),
                                        io_streak: or_zero(st),
                                        received_at: or_zero(ts),
                                    }),
                                },
                            },
                        },
                    },
                },
            },
        },
    }
}

fn num_or_zero(o: Option<i64>) -> (r: i64)
    ensures
        r == or_zero(o),
{
    match o {
        Some(n) => n,
        None => 0,
    }
}

pub fn decode_state(row: &RawRow) -> (r: Result<RobotStateRow, RepoError>)
    ensures
        match r {
            Ok(s) => robot_state_dec(row.columns@) == Ok::<RobotStateView, Seq<char>>(s@),
            Err(RepoError::Decode(m)) => robot_state_dec(row.columns@) == Err::<RobotStateView, Seq<char>>(m@),
            Err(_) => false,
        },
{
    let edge = req_text_opt(row, "edge_id")?;
    let model = req_text_opt(row, "robot_model")?;
    let mno = num_or_zero(opt_i64(row, "model_no")?);
    let snap = req_text_opt(row, "snapshot_json")?;
    let errs = req_text_opt(row, "read_errors")?;
    let degraded = num_or_zero(opt_i64(row, "degraded")?);
    let io_streak = num_or_zero(opt_i64(row, "io_streak")?);
    let received_at = num_or_zero(opt_i64(row, "received_at")?);
    let read_errors = match errs {
        Some(e) => e,
        None => {
            let mut e = String::new();
            crate::text::push_str(&mut e, "[]");
            e
        },
    };
    Ok(RobotStateRow {
        edge_id: unwrap_or_empty(edge),
        robot_model: keep_nonempty(model),
        model_no: if mno == i64::MIN {
            None
        } else {
            Some(mno)
        },
        snapshot_json: unwrap_or_empty(snap),
        read_errors,
        degraded,
        io_streak,
        received_at,
    })
}

#[derive(Debug, Clone)]
pub struct RobotDayRow {
    pub work_date: String,
    /// `{"events":[...],"counts":{...}}`
    pub payload: String,
    pub updated_at: i64,
}

pub struct DayView {
    pub work_date: Seq<char>,
    pub payload: Seq<char>,
    pub updated_at: i64,
}

impl View for RobotDayRow {
    type V = DayView;

    open spec fn view(&self) -> DayView {
        DayView { work_date: self.work_date@, payload: self.payload@, updated_at: self.updated_at }
    }
}

/// A per-day row: date and payload required, `updated_at` 0 when absent.
pub open spec fn day_dec(cols: Cols) -> Result<DayView, Seq<char>> {
    match f_text(cols, "work_date"@) {
        Err(e) => Err(e),
        Ok(d) => match f_text(cols, "payload"@) {
            Err(e) => Err(e),
            Ok(p) => match f_opt_i64(cols, "updated_at"@) {
                Err(e) => Err(e),
                Ok(u) => Ok(DayView { work_date: d, payload: p, updated_at: or_zero(u) }),
            },
        },
    }
}

pub(crate) fn decode_day_parts(row: &RawRow) -> (r: Result<(String, String, i64), RepoError>)
    ensures
        match r {
            Ok(t) => day_dec(row.columns@) == Ok::<DayView, Seq<char>>(DayView { work_date: t.0@, payload: t.1@, updated_at: t.2 }),
            Err(RepoError::Decode(m)) => day_dec(row.columns@) == Err::<DayView, Seq<char>>(m@),
            Err(_) => false,
        },
{
    let d = req_text(row, "work_date")?;
    let p = req_text(row, "payload")?;
    let u = num_or_zero(opt_i64(row, "updated_at")?);
    Ok((d, p, u))
}

pub fn decode_day(row: &RawRow) -> (r: Result<RobotDayRow, RepoError>)
    ensures
        match r {
            Ok(s) => day_dec(row.columns@) == Ok::<DayView, Seq<char>>(s@),
            Err(RepoError::Decode(m)) => day_dec(row.columns@) == Err::<DayView, Seq<char>>(m@),
            Err(_) => false,
        },
{
    let (work_date, payload, updated_at) = decode_day_parts(row)?;
    Ok(RobotDayRow { work_date, payload, updated_at })
}

pub open spec fn robot_state_ids(s: RobotStateView) -> Seq<Seq<char>> {
    seq![s.edge_id] + match s.robot_model {
        Some(m) => seq![m],
        None => Seq::empty(),
    }
}

pub open spec fn robot_state_values(s: RobotStateView) -> Seq<Seq<char>> {
    seq![
        quoted(s.edge_id),
        quoted(or_empty(s.robot_model)),
        dec(match s.model_no {
            Some(n) => n as int,
            None => i64::MIN as int,
        }),
        quoted(s.snapshot_json),
        quoted(s.read_errors),
        dec(s.degraded as int),
        dec(s.io_streak as int),
        dec(s.received_at as int),
    ]
}

pub open spec fn day_values(r: DayView) -> Seq<Seq<char>> {
    seq![quoted(r.work_date), quoted(r.payload), dec(r.updated_at as int)]
}

pub const DAY_COLS: &'static str = "work_date, payload, updated_at";

impl<T> CoreDbClient<T> {
    pub fn get_robot_state_cql(&self, edge_id: &str) -> (r: Result<String, RepoError>)
        ensures
            match r {
                Ok(q) => is_identifier(edge_id@) && q@ == select_of(self.ks()@, "plc_robot_state"@, STATE_COLS@)
                    + where_eq("edge_id"@, edge_id@),
                Err(e) => !is_identifier(edge_id@) && rejects(e, edge_id@),
            },
    {
        check_identifier(edge_id)?;
        let mut q = select_cql(self.keyspace_str(), "plc_robot_state", STATE_COLS);
        push_where_eq(&mut q, "edge_id", edge_id);
        Ok(q)
    }

    pub fn scan_robot_states_cql(&self, limit: u32) -> (r: String)
        ensures
            r@ == select_of(self.ks()@, "plc_robot_state"@, STATE_COLS@) + limit_of(limit),
    {
        let mut q = select_cql(self.keyspace_str(), "plc_robot_state", STATE_COLS);
        push_limit(&mut q, limit);
        q
    }

    /// The snapshot and error JSON are not identifiers; they are embedded
    /// only as quoted literals.
    pub fn upsert_robot_state_cql(&self, s: &RobotStateRow) -> (r: Result<String, RepoError>)
        ensures
            match r {
                Ok(q) => first_invalid(robot_state_ids(s@)) is None && q@ == insert_of(self.ks()@,
                    "plc_robot_state"@, STATE_COLS@, robot_state_values(s@)),
                Err(e) => first_invalid(robot_state_ids(s@)) matches Some(b) && rejects(e, b),
            },
    {
        let mut ids: Vec<&str> = Vec::new();
        ids.push(s.edge_id.as_str());
        if let Some(m) = &s.robot_model {
            ids.push(m.as_str());
        }
        assert(ids@.map_values(|x: &str| x@) =~= robot_state_ids(s@));
        check_identifiers(&ids)?;
        let mut vals: Vec<String> = Vec::new();
        vals.push(quote_text(s.edge_id.as_str()));
        vals.push(quote_text(text_or_empty(&s.robot_model)));
        vals.push(int_text(match s.model_no {
            Some(n) => n,
            None => i64::MIN,
        }));
        vals.push(quote_text(s.snapshot_json.as_str()));
        vals.push(quote_text(s.read_errors.as_str()));
        vals.push(int_text(s.degraded));
        vals.push(int_text(s.io_streak));
        vals.push(int_text(s.received_at));
        assert(strings_of(vals@) =~= robot_state_values(s@));
        Ok(insert_cql(self.keyspace_str(), "plc_robot_state", STATE_COLS, &vals))
    }

    pub fn get_robot_day_cql(&self, work_date: &str) -> (r: Result<String, RepoError>)
        ensures
            match r {
                Ok(q) => is_identifier(work_date@) && q@ == select_of(self.ks()@, "plc_robot_day"@, DAY_COLS@)
                    + where_eq("work_date"@, work_date@),
                Err(e) => !is_identifier(work_date@) && rejects(e, work_date@),
            },
    {
        check_identifier(work_date)?;
        let mut q = select_cql(self.keyspace_str(), "plc_robot_day", DAY_COLS);
        push_where_eq(&mut q, "work_date", work_date);
        Ok(q)
    }

    pub fn scan_robot_days_cql(&self, from: &str, to: &str, limit: u32) -> (r: Result<String, RepoError>)
        ensures
            match r {
                Ok(q) => is_identifier(from@) && is_identifier(to@) && q@ == select_of(self.ks()@,
                    "plc_robot_day"@, DAY_COLS@) + where_dates(from@, to@) + limit_of(limit),
                Err(e) => (!is_identifier(from@) && rejects(e, from@)) || (is_identifier(from@)
                    && !is_identifier(to@) && rejects(e, to@)),
            },
    {
        check_identifier(from)?;
        check_identifier(to)?;
        let mut q = select_cql(self.keyspace_str(), "plc_robot_day", DAY_COLS);
        push_where_dates(&mut q, from, to);
        push_limit(&mut q, limit);
        Ok(q)
    }

    pub fn upsert_robot_day_cql(&self, r: &RobotDayRow) -> (res: Result<String, RepoError>)
        ensures
            match res {
                Ok(q) => is_identifier(r.work_date@) && q@ == insert_of(self.ks()@, "plc_robot_day"@, DAY_COLS@,
                    day_values(r@)),
                Err(e) => !is_identifier(r.work_date@) && rejects(e, r.work_date@),
            },
    {
        check_identifier(r.work_date.as_str())?;
        let mut vals: Vec<String> = Vec::new();
        vals.push(quote_text(r.work_date.as_str()));
        vals.push(quote_text(r.payload.as_str()));
        vals.push(int_text(r.updated_at));
        assert(strings_of(vals@) =~= day_values(r@));
        Ok(insert_cql(self.keyspace_str(), "plc_robot_day", DAY_COLS, &vals))
    }
}

} // verus!
