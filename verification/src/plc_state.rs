//! Current PLC/camera state per edge (`plc_state`): one row per edge,
//! overwritten on every poll, so polling does not grow the table.

use vstd::prelude::*;
use crate::coredb::{
    f_opt_i64, f_text_opt, keep_nonempty, nonempty, opt_i64, opt_str_view, positive, req_text_opt,
    Cols, CoreDbClient, RawRow,
};
use crate::cql::{
    check_identifier, check_identifiers, is_identifier, first_invalid, insert_cql, insert_of, int_text,
    push_limit, push_where_eq, quote_text, quoted, rejects, select_cql, select_of, strings_of,
    where_eq, limit_of, RepoError,
};
use crate::text::dec;

verus! {

#[derive(Debug, Clone)]
pub struct PlcStateRow {
    pub edge_id: String,
    pub model_no: Option<String>,
    pub plc_ts: Option<i64>,
    pub camera_model_no: Option<String>,
    pub camera_ts: Option<i64>,
    pub updated_at: i64,
}

pub struct PlcStateView {
    pub edge_id: Seq<char>,
    pub model_no: Option<Seq<char>>,
    pub plc_ts: Option<i64>,
    pub camera_model_no: Option<Seq<char>>,
    pub camera_ts: Option<i64>,
    pub updated_at: i64,
}

impl View for PlcStateRow {
    type V = PlcStateView;

    open spec fn view(&self) -> PlcStateView {
        PlcStateView {
            edge_id: self.edge_id@,
            model_no: opt_str_view(self.model_no),
            plc_ts: self.plc_ts,
            camera_model_no: opt_str_view(self.camera_model_no),
            camera_ts: self.camera_ts,
            updated_at: self.updated_at,
        }
    }
}

pub const PLC_STATE_COLS: &'static str = "edge_id, model_no, plc_ts, camera_model_no, camera_ts, updated_at";

pub open spec fn or_empty(o: Option<Seq<char>>) -> Seq<char> {
    match o {
        Some(s) => s,
        None => Seq::empty(),
    }
}

pub open spec fn or_zero(o: Option<i64>) -> i64 {
    match o {
        Some(n) => n,
        None => 0,
    }
}

/// A stored state row read back: absent text is empty, empty model numbers
/// and non-positive timestamps read as unknown, an absent `updated_at` as 0.
pub open spec fn plc_state_dec(cols: Cols) -> Result<PlcStateView, Seq<char>> {
    match f_text_opt(cols, "edge_id"@) {
        Err(e) => Err(e),
        Ok(edge) => match f_text_opt(cols, "model_no"@) {
            Err(e) => Err(e),
            Ok(model) => match f_opt_i64(cols, "plc_ts"@) {
                Err(e) => Err(e),
                Ok(pts) => match f_text_opt(cols, "camera_model_no"@) {
                    Err(e) => Err(e),
                    Ok(cam) => match f_opt_i64(cols, "camera_ts"@) {
                        Err(e) => Err(e),
                        Ok(cts) => match f_opt_i64(cols, "updated_at"@) {
                            Err(e) => Err(e),
                            Ok(up) => Ok(PlcStateView {
                                edge_id: or_empty(edge),
                                model_no: nonempty(model),
                                plc_ts: positive(pts),
                                camera_model_no: nonempty(cam),
                                camera_ts: positive(cts),
                                updated_at: or_zero(up),
                            }),
                        },
                    },
                },
            },
        },
    }
}

pub(crate) fn keep_positive(o: Option<i64>) -> (r: Option<i64>)
    ensures
        r == positive(o),
{
    match o {
        Some(n) => if n > 0 {
            Some(n)
        } else {
            None
        },
        None => None,
    }
}

pub(crate) fn unwrap_or_empty(o: Option<String>) -> (r: String)
    ensures
        r@ == or_empty(opt_str_view(o)),
{
    match o {
        Some(s) => s,
        None => String::new(),
    }
}

pub fn decode_state(row: &RawRow) -> (r: Result<PlcStateRow, RepoError>)
    ensures
        match r {
            Ok(s) => plc_state_dec(row.columns@) == Ok::<PlcStateView, Seq<char>>(s@),
            Err(RepoError::Decode(m)) => plc_state_dec(row.columns@) == Err::<PlcStateView, Seq<char>>(m@),
            Err(_) => false,
        },
{
    let edge = req_text_opt(row, "edge_id")?;
    let model = req_text_opt(row, "model_no")?;
    let pts = opt_i64(row, "plc_ts")?;
    let cam = req_text_opt(row, "camera_model_no")?;
    let cts = opt_i64(row, "camera_ts")?;
    let up = opt_i64(row, "updated_at")?;
    let updated_at = match up {
        Some(n) => n,
        None => 0,
    };
    let s = PlcStateRow {
        edge_id: unwrap_or_empty(edge),
        model_no: keep_nonempty(model),
        plc_ts: keep_positive(pts),
        camera_model_no: keep_nonempty(cam),
        camera_ts: keep_positive(cts),
        updated_at,
    };
    Ok(s)
}

/// Identifiers a state row embeds: the edge, and the model numbers it has.
pub open spec fn plc_state_ids(s: PlcStateView) -> Seq<Seq<char>> {
    seq![s.edge_id] + match s.model_no {
        Some(m) => seq![m],
        None => Seq::empty(),
    } + match s.camera_model_no {
        Some(m) => seq![m],
        None => Seq::empty(),
    }
}

/// Values of the upsert, in column order; unknowns are written as empty
/// text and 0.
pub open spec fn plc_state_values(s: PlcStateView) -> Seq<Seq<char>> {
    seq![
        quoted(s.edge_id),
        quoted(or_empty(s.model_no)),
        dec(or_zero(s.plc_ts) as int),
        quoted(or_empty(s.camera_model_no)),
        dec(or_zero(s.camera_ts) as int),
        dec(s.updated_at as int),
    ]
}

pub(crate) fn text_or_empty(o: &Option<String>) -> (r: &str)
    ensures
        r@ == or_empty(opt_str_view(*o)),
{
    match o {
        Some(s) => s.as_str(),
        None => {
            proof {
                reveal_strlit("");
            }
            ""
        },
    }
}

impl<T> CoreDbClient<T> {
    /// The lookup of one edge's state.
    pub fn get_plc_state_cql(&self, edge_id: &str) -> (r: Result<String, RepoError>)
        ensures
            match r {
                Ok(q) => is_identifier(edge_id@) && q@ == select_of(self.ks()@, "plc_state"@, PLC_STATE_COLS@)
                    + where_eq("edge_id"@, edge_id@),
                Err(e) => !is_identifier(edge_id@) && rejects(e, edge_id@),
            },
    {
        check_identifier(edge_id)?;
        let mut q = select_cql(self.keyspace_str(), "plc_state", PLC_STATE_COLS);
        push_where_eq(&mut q, "edge_id", edge_id);
        Ok(q)
    }

    /// The scan of every edge's state.
    pub fn scan_plc_states_cql(&self, limit: u32) -> (r: String)
        ensures
            r@ == select_of(self.ks()@, "plc_state"@, PLC_STATE_COLS@) + limit_of(limit),
    {
        let mut q = select_cql(self.keyspace_str(), "plc_state", PLC_STATE_COLS);
        push_limit(&mut q, limit);
        q
    }

    /// The upsert of one edge's state (same key overwrites).
    pub fn upsert_plc_state_cql(&self, s: &PlcStateRow) -> (r: Result<String, RepoError>)
        ensures
            match r {
                Ok(q) => first_invalid(plc_state_ids(s@)) is None && q@ == insert_of(self.ks()@, "plc_state"@,
                    PLC_STATE_COLS@, plc_state_values(s@)),
                Err(e) => first_invalid(plc_state_ids(s@)) matches Some(b) && rejects(e, b),
            },
    {
        let mut ids: Vec<&str> = Vec::new();
        ids.push(s.edge_id.as_str());
        if let Some(m) = &s.model_no {
            ids.push(m.as_str());
        }
        if let Some(m) = &s.camera_model_no {
            ids.push(m.as_str());
        }
        assert(ids@.map_values(|x: &str| x@) =~= plc_state_ids(s@));
        check_identifiers(&ids)?;
        let mut vals: Vec<String> = Vec::new();
        vals.push(quote_text(s.edge_id.as_str()));
        vals.push(quote_text(text_or_empty(&s.model_no)));
        vals.push(int_text(match s.plc_ts {
            Some(n) => n,
            None => 0,
        }));
        vals.push(quote_text(text_or_empty(&s.camera_model_no)));
        vals.push(int_text(match s.camera_ts {
            Some(n) => n,
            None => 0,
        }));
        vals.push(int_text(s.updated_at));
        assert(strings_of(vals@) =~= plc_state_values(s@));
        Ok(insert_cql(self.keyspace_str(), "plc_state", PLC_STATE_COLS, &vals))
    }
}

} // verus!
