//! Paint recipes (`recipes`): one row per (edge, model number); posting the
//! same model again overwrites it. The parameter set is kept as JSON text.

use vstd::prelude::*;
use crate::coredb::{f_i64, f_text, req_i64, req_text, Cols, CoreDbClient, RawRow};
use crate::cql::{
    check_identifier, check_identifiers, first_invalid, insert_cql, insert_of, int_text,
    is_identifier, limit_of, push_limit, push_where_eq, quote_text, quoted, rejects, select_cql,
    select_of, strings_of, where_eq, RepoError,
};
use crate::text::dec;

verus! {

#[derive(Debug, Clone)]
pub struct RecipeRow {
    pub event_id: String,
    pub edge_id: String,
    pub model_no: i64,
    pub model_name: String,
    pub levels: i64,
    /// Compact JSON of the recipe's parameter set.
    pub recipe_json: String,
    pub received_at: i64,
    pub work_date: String,
}

pub struct RecipeView {
    pub event_id: Seq<char>,
    pub edge_id: Seq<char>,
    pub model_no: i64,
    pub model_name: Seq<char>,
    pub levels: i64,
    pub recipe_json: Seq<char>,
    pub received_at: i64,
    pub work_date: Seq<char>,
}

impl View for RecipeRow {
    type V = RecipeView;

    open spec fn view(&self) -> RecipeView {
        RecipeView {
            event_id: self.event_id@,
            edge_id: self.edge_id@,
            model_no: self.model_no,
            model_name: self.model_name@,
            levels: self.levels,
            recipe_json: self.recipe_json@,
            received_at: self.received_at,
            work_date: self.work_date@,
        }
    }
}

pub const RECIPE_COLS: &'static str = "event_id, edge_id, model_no, model_name, levels, recipe_json, received_at, work_date";

/// Every column is required; the first that is missing or mistyped is reported.
pub open spec fn recipe_dec(cols: Cols) -> Result<RecipeView, Seq<char>> {
    match f_text(cols, "event_id"@) {
        Err(e) => Err(e),
        Ok(event_id) => match f_text(cols, "edge_id"@) {
            Err(e) => Err(e),
            Ok(edge_id) => match f_i64(cols, "model_no"@) {
                Err(e) => Err(e),
                Ok(model_no) => match f_text(cols, "model_name"@) {
                    Err(e) => Err(e),
                    Ok(model_name) => match f_i64(cols, "levels"@) {
                        Err(e) => Err(e),
                        Ok(levels) => match f_text(cols, "recipe_json"@) {
                            Err(e) => Err(e),
                            Ok(recipe_json) => match f_i64(cols, "received_at"@) {
                                Err(e) => Err(e),
                                Ok(received_at) => match f_text(cols, "work_date"@) {
                                    Err(e) => Err(e),
                                    Ok(work_date) => Ok(RecipeView {
                                        event_id,
                                        edge_id,
                                        model_no,
                                        model_name,
                                        levels,
                                        recipe_json,
                                        received_at,
                                        work_date,
                                    }),
                                },
                            },
                        },
                    },
                },
            },
        },
    }
}

pub fn decode_recipe(row: &RawRow) -> (r: Result<RecipeRow, RepoError>)
    ensures
        match r {
            Ok(s) => recipe_dec(row.columns@) == Ok::<RecipeView, Seq<char>>(s@),
            Err(RepoError::Decode(m)) => recipe_dec(row.columns@) == Err::<RecipeView, Seq<char>>(m@),
            Err(_) => false,
        },
{
    let event_id = req_text(row, "event_id")?;
    let edge_id = req_text(row, "edge_id")?;
    let model_no = req_i64(row, "model_no")?;
    let model_name = req_text(row, "model_name")?;
    let levels = req_i64(row, "levels")?;
    let recipe_json = req_text(row, "recipe_json")?;
    let received_at = req_i64(row, "received_at")?;
    let work_date = req_text(row, "work_date")?;
    Ok(RecipeRow { event_id, edge_id, model_no, model_name, levels, recipe_json, received_at, work_date })
}

/// Identifiers a recipe row embeds. The model name and the JSON are free
/// text, embedded only as quoted literals.
pub open spec fn recipe_ids(r: RecipeView) -> Seq<Seq<char>> {
    seq![r.event_id, r.edge_id, r.work_date]
}

pub open spec fn recipe_values(r: RecipeView) -> Seq<Seq<char>> {
    seq![
        quoted(r.event_id),
        quoted(r.edge_id),
        dec(r.model_no as int),
        quoted(r.model_name),
        dec(r.levels as int),
        quoted(r.recipe_json),
        dec(r.received_at as int),
        quoted(r.work_date),
    ]
}

impl<T> CoreDbClient<T> {
    pub fn insert_recipe_cql(&self, row: &RecipeRow) -> (r: Result<String, RepoError>)
        ensures
            match r {
                Ok(q) => first_invalid(recipe_ids(row@)) is None && q@ == insert_of(self.ks()@, "recipes"@,
                    RECIPE_COLS@, recipe_values(row@)),
                Err(e) => first_invalid(recipe_ids(row@)) matches Some(b) && rejects(e, b),
            },
    {
        let mut ids: Vec<&str> = Vec::new();
        ids.push(row.event_id.as_str());
        ids.push(row.edge_id.as_str());
        ids.push(row.work_date.as_str());
        assert(ids@.map_values(|x: &str| x@) =~= recipe_ids(row@));
        check_identifiers(&ids)?;
        let mut vals: Vec<String> = Vec::new();
        vals.push(quote_text(row.event_id.as_str()));
        vals.push(quote_text(row.edge_id.as_str()));
        vals.push(int_text(row.model_no));
        vals.push(quote_text(row.model_name.as_str()));
        vals.push(int_text(row.levels));
        vals.push(quote_text(row.recipe_json.as_str()));
        vals.push(int_text(row.received_at));
        vals.push(quote_text(row.work_date.as_str()));
        assert(strings_of(vals@) =~= recipe_values(row@));
        Ok(insert_cql(self.keyspace_str(), "recipes", RECIPE_COLS, &vals))
    }

    pub fn get_recipe_cql(&self, event_id: &str) -> (r: Result<String, RepoError>)
        ensures
            match r {
                Ok(q) => is_identifier(event_id@) && q@ == select_of(self.ks()@, "recipes"@, RECIPE_COLS@)
                    + where_eq("event_id"@, event_id@),
                Err(e) => !is_identifier(event_id@) && rejects(e, event_id@),
            },
    {
        check_identifier(event_id)?;
        let mut q = select_cql(self.keyspace_str(), "recipes", RECIPE_COLS);
        push_where_eq(&mut q, "event_id", event_id);
        Ok(q)
    }

    pub fn scan_recipes_for_date_cql(&self, work_date: &str, limit: u32) -> (r: Result<String, RepoError>)
        ensures
            match r {
                Ok(q) => is_identifier(work_date@) && q@ == select_of(self.ks()@, "recipes"@, RECIPE_COLS@)
                    + where_eq("work_date"@, work_date@) + limit_of(limit),
                Err(e) => !is_identifier(work_date@) && rejects(e, work_date@),
            },
    {
        check_identifier(work_date)?;
        let mut q = select_cql(self.keyspace_str(), "recipes", RECIPE_COLS);
        push_where_eq(&mut q, "work_date", work_date);
        push_limit(&mut q, limit);
        Ok(q)
    }

    /// Every stored recipe, whatever day it arrived: the last recipe received
    /// for a model stays in force until another one replaces it.
    pub fn scan_all_recipes_cql(&self, limit: u32) -> (r: String)
        ensures
            r@ == select_of(self.ks()@, "recipes"@, RECIPE_COLS@) + limit_of(limit),
    {
        let mut q = select_cql(self.keyspace_str(), "recipes", RECIPE_COLS);
        push_limit(&mut q, limit);
        q
    }
}

} // verus!
