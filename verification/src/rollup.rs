//! Precomputed daily aggregates (`daily_rollup`): one row per date, so the
//! dashboard reads one key instead of scanning every job of the day.

use vstd::prelude::*;
use crate::coredb::{col, column, decode_text, text_dec, CoreDbClient, RawRow};
use crate::cql::{
    check_identifier, insert_cql, insert_of, int_text, is_identifier, limit_of, push_limit,
    push_where_dates, push_where_eq, quote_text, rejects, select_cql, select_of, strings_of,
    where_dates, where_eq, RepoError,
};
use crate::robot_store::{day_dec, day_values, decode_day_parts, DayView, DAY_COLS};
use crate::text::push_str;

verus! {

#[derive(Debug, Clone)]
pub struct RollupRow {
    pub work_date: String,
    /// The aggregates as JSON text, so new figures need no schema change.
    pub payload: String,
    pub updated_at: i64,
}

impl View for RollupRow {
    type V = DayView;

    open spec fn view(&self) -> DayView {
        DayView { work_date: self.work_date@, payload: self.payload@, updated_at: self.updated_at }
    }
}

pub fn decode_rollup(row: &RawRow) -> (r: Result<RollupRow, RepoError>)
    ensures
        match r {
            Ok(s) => day_dec(row.columns@) == Ok::<DayView, Seq<char>>(s@),
            Err(RepoError::Decode(m)) => day_dec(row.columns@) == Err::<DayView, Seq<char>>(m@),
            Err(_) => false,
        },
{
    let (work_date, payload, updated_at) = decode_day_parts(row)?;
    Ok(RollupRow { work_date, payload, updated_at })
}

/// The `work_date` text of a row, or `work_date missing`.
pub open spec fn work_date_dec(row: RawRow) -> Result<Seq<char>, Seq<char>> {
    match col(row.columns@, "work_date"@) {
        None => Err("work_date missing"@),
        Some(c) => text_dec(c),
    }
}

pub fn decode_work_date(row: &RawRow) -> (r: Result<String, RepoError>)
    ensures
        match r {
            Ok(s) => work_date_dec(*row) == Ok::<Seq<char>, Seq<char>>(s@),
            Err(RepoError::Decode(m)) => work_date_dec(*row) == Err::<Seq<char>, Seq<char>>(m@),
            Err(_) => false,
        },
{
    match column(row, "work_date") {
        Some(c) => decode_text(c),
        None => {
            let mut m = String::new();
            push_str(&mut m, "work_date missing");
            Err(RepoError::Decode(m))
        },
    }
}

impl<T> CoreDbClient<T> {
    pub fn get_rollup_cql(&self, work_date: &str) -> (r: Result<String, RepoError>)
        ensures
            match r {
                Ok(q) => is_identifier(work_date@) && q@ == select_of(self.ks()@, "daily_rollup"@, DAY_COLS@)
                    + where_eq("work_date"@, work_date@),
                Err(e) => !is_identifier(work_date@) && rejects(e, work_date@),
            },
    {
        check_identifier(work_date)?;
        let mut q = select_cql(self.keyspace_str(), "daily_rollup", DAY_COLS);
        push_where_eq(&mut q, "work_date", work_date);
        Ok(q)
    }

    pub fn scan_rollups_cql(&self, from: &str, to: &str, limit: u32) -> (r: Result<String, RepoError>)
        ensures
            match r {
                Ok(q) => is_identifier(from@) && is_identifier(to@) && q@ == select_of(self.ks()@,
                    "daily_rollup"@, DAY_COLS@) + where_dates(from@, to@) + limit_of(limit),
                Err(e) => (!is_identifier(from@) && rejects(e, from@)) || (is_identifier(from@)
                    && !is_identifier(to@) && rejects(e, to@)),
            },
    {
        check_identifier(from)?;
        check_identifier(to)?;
        let mut q = select_cql(self.keyspace_str(), "daily_rollup", DAY_COLS);
        push_where_dates(&mut q, from, to);
        push_limit(&mut q, limit);
        Ok(q)
    }

    pub fn all_rollup_dates_cql(&self, limit: u32) -> (r: String)
        ensures
            r@ == select_of(self.ks()@, "daily_rollup"@, "work_date"@) + limit_of(limit),
    {
        let mut q = select_cql(self.keyspace_str(), "daily_rollup", "work_date");
        push_limit(&mut q, limit);
        q
    }

    /// The payload is JSON, not an identifier; it is embedded only as a
    /// quoted literal.
    pub fn upsert_rollup_cql(&self, r: &RollupRow) -> (res: Result<String, RepoError>)
        ensures
            match res {
                Ok(q) => is_identifier(r.work_date@) && q@ == insert_of(self.ks()@, "daily_rollup"@, DAY_COLS@,
                    day_values(r@)),
                Err(e) => !is_identifier(r.work_date@) && rejects(e, r.work_date@),
            },
    {
        check_identifier(r.work_date.as_str())?;
        let mut vals: Vec<String> = Vec::new();
        vals.push(quote_text(r.work_date.as_str()));
        vals.push(quote_text(r.payload.as_str()));
        vals.push(int_text(r.updated_at));
        assert(strings_of(vals@) =~= day_values(r@));
        Ok(insert_cql(self.keyspace_str(), "daily_rollup", DAY_COLS, &vals))
    }
}

} // verus!
