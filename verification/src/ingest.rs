//! Decisions of the gateway's write routes: who may write, which event id a
//! posted state gets, whether a PLC poll changed anything, and what the edge
//! is answered.

use vstd::prelude::*;
use crate::coredb::{nonempty, opt_str_view, CoreDbClient, WasiTransport};
use crate::cql::RepoError;
use crate::domain::opt_view;
use crate::gateway::{sanitize_id, sanitized};
use crate::plc_state::PlcStateRow;
use crate::schema::{IngestResponse, JobIn, PlcModelIn, RecipeIn, RecipeParam, Rejected};
use crate::text::{dec, is_ws, push_char, push_i64, push_str, str_eq};

verus! {

/// The CoreDB client of the gateway, on its wasi:http transport.
pub fn client(coredb_url: String, keyspace: String) -> (r: CoreDbClient<WasiTransport>)
    ensures
        r.base_url()@ == coredb_url@,
        r.ks()@ == keyspace@,
{
    CoreDbClient::new(WasiTransport::new(), coredb_url, keyspace)
}

// ── edge keys ──────────────────────────────────────────────────────────────

pub open spec fn keys_view(v: Seq<String>) -> Seq<Seq<char>> {
    v.map_values(|s: String| s@)
}

/// With no key configured every request is let through (development
/// mode); otherwise the request must carry one of the configured keys.
pub open spec fn edge_key_ok(configured: Seq<Seq<char>>, given: Option<Seq<char>>) -> bool {
    configured.len() == 0 || (given matches Some(g) && configured.contains(g))
}

pub fn check_edge_key(configured: &Vec<String>, given: Option<&str>) -> (r: bool)
    ensures
        r == edge_key_ok(keys_view(configured@), match given {
            Some(g) => Some(g@),
            None => None,
        }),
{
    if configured.len() == 0 {
        return true;
    }
    let g = match given {
        Some(g) => g,
        None => return false,
    };
    let ghost keys = keys_view(configured@);
    let mut i: usize = 0;
    while i < configured.len()
        invariant
            i <= configured@.len(),
            keys == keys_view(configured@),
            given == Some(g),
            configured@.len() > 0,
            forall|j: int| 0 <= j < i ==> keys[j] != g@,
        decreases configured.len() - i,
    {
        if str_eq(configured[i].as_str(), g) {
            assert(keys[i as int] == g@);
            assert(keys.contains(g@));
            return true;
        }
        i = i + 1;
    }
    assert(!keys.contains(g@)) by {
        if keys.contains(g@) {
            let j = choose|j: int| 0 <= j < keys.len() && keys[j] == g@;
        }
    }
    false
}

/// `s` without leading and trailing whitespace.
pub open spec fn trimmed(s: Seq<char>) -> Seq<char>
    decreases s.len(),
{
    if s.len() > 0 && is_ws(s[0]) {
        trimmed(s.drop_first())
    } else if s.len() > 0 && is_ws(s.last()) {
        trimmed(s.drop_last())
    } else {
        s
    }
}

/// The pieces of `s` between commas, in order.
pub open spec fn comma_fields(s: Seq<char>) -> Seq<Seq<char>>
    decreases s.len(),
{
    if s.len() == 0 {
        seq![Seq::empty()]
    } else {
        let prev = comma_fields(s.drop_last());
        if s.last() == ',' {
            prev.push(Seq::empty())
        } else {
            prev.update(prev.len() - 1, prev.last().push(s.last()))
        }
    }
}

proof fn lemma_comma_fields_nonempty(s: Seq<char>)
    ensures
        comma_fields(s).len() >= 1,
    decreases s.len(),
{
    if s.len() > 0 {
        lemma_comma_fields_nonempty(s.drop_last());
    }
}

/// The keys a comma-separated list names: each piece trimmed, empty ones
/// dropped.
pub open spec fn key_list(fields: Seq<Seq<char>>) -> Seq<Seq<char>>
    decreases fields.len(),
{
    if fields.len() == 0 {
        Seq::empty()
    } else {
        let t = trimmed(fields.last());
        if t.len() == 0 {
            key_list(fields.drop_last())
        } else {
            key_list(fields.drop_last()).push(t)
        }
    }
}

fn char_ws(c: char) -> (r: bool)
    ensures
        r == is_ws(c),
{
    let n = c as u32;
    (0x9 <= n && n <= 0xd) || n == 0x20 || n == 0x85 || n == 0xa0 || n == 0x1680 || (0x2000 <= n
        && n <= 0x200a) || n == 0x2028 || n == 0x2029 || n == 0x202f || n == 0x205f || n == 0x3000
}

proof fn lemma_trimmed_range(s: Seq<char>, a: int, b: int)
    requires
        0 <= a <= b <= s.len(),
        forall|k: int| 0 <= k < a ==> is_ws(#[trigger] s[k]),
        forall|k: int| b <= k < s.len() ==> is_ws(#[trigger] s[k]),
        a < b ==> !is_ws(s[a]) && !is_ws(s[b - 1]),
    ensures
        trimmed(s) == s.subrange(a, b),
    decreases s.len(),
{
    if s.len() > 0 && is_ws(s[0]) {
        if a == 0 {
            assert(a == b);
            assert(b <= 0 || !is_ws(s[b - 1]) || b == 0);
        }
        let t = s.drop_first();
        if a > 0 {
            assert forall|k: int| 0 <= k < a - 1 implies is_ws(#[trigger] t[k]) by {
                assert(t[k] == s[k + 1]);
            }
            assert forall|k: int| b - 1 <= k < t.len() implies is_ws(#[trigger] t[k]) by {
                assert(t[k] == s[k + 1]);
            }
            lemma_trimmed_range(t, a - 1, b - 1);
            assert(t.subrange(a - 1, b - 1) =~= s.subrange(a, b));
        } else {
            assert(b == 0);
            assert forall|k: int| 0 <= k < t.len() implies is_ws(#[trigger] t[k]) by {
                assert(t[k] == s[k + 1]);
            }
            lemma_trimmed_range(t, 0, 0);
            assert(t.subrange(0, 0) =~= s.subrange(0, 0));
        }
    } else if s.len() > 0 && is_ws(s.last()) {
        let t = s.drop_last();
        if b == s.len() {
            assert(a < b);
            assert(!is_ws(s[b - 1]));
        }
        lemma_trimmed_range(t, a, b);
        assert(t.subrange(a, b) =~= s.subrange(a, b));
    } else {
        if s.len() > 0 {
            if a > 0 {
                assert(is_ws(s[0]));
            }
            if b < s.len() {
                assert(is_ws(s[s.len() - 1]));
            }
        }
        assert(s.subrange(a, b) =~= s);
    }
}

fn trim_chars(cs: &Vec<char>) -> (r: String)
    ensures
        r@ == trimmed(cs@),
{
    let mut a: usize = 0;
    while a < cs.len() && char_ws(cs[a])
        invariant
            a <= cs@.len(),
            forall|k: int| 0 <= k < a ==> is_ws(#[trigger] cs@[k]),
        decreases cs.len() - a,
    {
        a = a + 1;
    }
    let mut b: usize = cs.len();
    while b > a && char_ws(cs[b - 1])
        invariant
            a <= b <= cs@.len(),
            forall|k: int| b <= k < cs@.len() ==> is_ws(#[trigger] cs@[k]),
        decreases b,
    {
        b = b - 1;
    }
    proof {
        if a < b {
            assert(!is_ws(cs@[a as int]));
        }
        lemma_trimmed_range(cs@, a as int, b as int);
    }
    let mut out = String::new();
    let mut i: usize = a;
    while i < b
        invariant
            a <= i <= b <= cs@.len(),
            out@ == cs@.subrange(a as int, i as int),
        decreases b - i,
    {
        push_char(&mut out, cs[i]);
        assert(cs@.subrange(a as int, i + 1) =~= cs@.subrange(a as int, i as int).push(cs@[i as int]));
        i = i + 1;
    }
    out
}

/// The accepted edge keys from the configured comma-separated list; none
/// when nothing is configured.
pub fn edge_api_keys(raw: Option<&str>) -> (r: Vec<String>)
    ensures
        keys_view(r@) == match raw {
            Some(s) => key_list(comma_fields(s@)),
            None => Seq::<Seq<char>>::empty(),
        },
{
    let s = match raw {
        Some(s) => s,
        None => {
            let v: Vec<String> = Vec::new();
            assert(keys_view(v@) =~= Seq::<Seq<char>>::empty());
            return v;
        },
    };
    let cs = crate::text::chars_of(s);
    let mut out: Vec<String> = Vec::new();
    let mut cur: Vec<char> = Vec::new();
    let mut i: usize = 0;
    assert(cs@.take(0) =~= Seq::<char>::empty());
    assert(keys_view(out@) =~= Seq::<Seq<char>>::empty());
    while i < cs.len()
        invariant
            i <= cs@.len(),
            cs@ == s@,
            comma_fields(cs@.take(i as int)).len() >= 1,
            comma_fields(cs@.take(i as int)).last() == cur@,
            keys_view(out@) == key_list(comma_fields(cs@.take(i as int)).drop_last()),
        decreases cs.len() - i,
    {
        let c = cs[i];
        let ghost pre = cs@.take(i as int);
        proof {
            assert(cs@.take(i + 1).drop_last() =~= pre);
            assert(cs@.take(i + 1).last() == c);
            lemma_comma_fields_nonempty(pre);
        }
        if c == ',' {
            let t = trim_chars(&cur);
            let ghost before = out@;
            if !t.as_str().is_empty() {
                out.push(t);
                assert(keys_view(out@) =~= keys_view(before).push(t@));
            }
            let ghost f = comma_fields(pre);
            assert(comma_fields(cs@.take(i + 1)) == f.push(Seq::empty()));
            assert(comma_fields(cs@.take(i + 1)).drop_last() =~= f);
            assert(f =~= f.drop_last().push(f.last()));
            cur = Vec::new();
        } else {
            cur.push(c);
            let ghost f = comma_fields(pre);
            assert(comma_fields(cs@.take(i + 1)).drop_last() =~= f.drop_last());
        }
        i = i + 1;
    }
    assert(cs@.take(cs@.len() as int) =~= cs@);
    let t = trim_chars(&cur);
    let ghost before = out@;
    proof {
        lemma_comma_fields_nonempty(cs@);
        let f = comma_fields(cs@);
        assert(f =~= f.drop_last().push(f.last()));
    }
    if !t.as_str().is_empty() {
        out.push(t);
        assert(keys_view(out@) =~= keys_view(before).push(t@));
    }
    out
}


// ── event ids ──────────────────────────────────────────────────────────────

/// The id of a PLC state update, fixed by edge, model and time so that a
/// resend of the same update is recognised as a duplicate.
pub open spec fn plc_event_id_of(edge: Seq<char>, model: Seq<char>, ts_ms: i64) -> Seq<char> {
    "plc-"@ + sanitized(edge) + "-"@ + sanitized(model) + "-"@ + dec(ts_ms as int)
}

pub fn plc_event_id(edge_id: &str, model_no: &str, ts_ms: i64) -> (r: String)
    ensures
        r@ == plc_event_id_of(edge_id@, model_no@, ts_ms),
{
    let mut out = String::new();
    push_str(&mut out, "plc-");
    let e = sanitize_id(edge_id);
    push_str(&mut out, e.as_str());
    push_str(&mut out, "-");
    let m = sanitize_id(model_no);
    push_str(&mut out, m.as_str());
    push_str(&mut out, "-");
    push_i64(&mut out, ts_ms);
    assert(out@ =~= plc_event_id_of(edge_id@, model_no@, ts_ms));
    out
}

/// The id of a recipe: one per (edge, model number), so a repost overwrites.
pub open spec fn recipe_event_id_of(edge: Seq<char>, model_no: i64) -> Seq<char> {
    "recipe-"@ + sanitized(edge) + "-"@ + dec(model_no as int)
}

pub fn recipe_event_id(edge_id: &str, model_no: i64) -> (r: String)
    ensures
        r@ == recipe_event_id_of(edge_id@, model_no),
{
    let mut out = String::new();
    push_str(&mut out, "recipe-");
    let e = sanitize_id(edge_id);
    push_str(&mut out, e.as_str());
    push_str(&mut out, "-");
    push_i64(&mut out, model_no);
    assert(out@ =~= recipe_event_id_of(edge_id@, model_no));
    out
}

// ── recipes ────────────────────────────────────────────────────────────────

pub open spec fn param_fits(p: RecipeParam, levels: i64) -> bool {
    p.table@.len() == levels && p.applied@.len() == levels
}

pub open spec fn length_msg(name: Seq<char>, levels: i64) -> Seq<char> {
    name + ": table/applied length must equal levels ("@ + dec(levels as int) + ")"@
}

/// Why a posted recipe is refused: `levels` outside 1..=256, or a parameter
/// whose table or applied list is not `levels` long (the first such
/// parameter in the order atomization, pattern, flow).
pub open spec fn recipe_error(inp: RecipeIn) -> Option<Seq<char>> {
    if !(1 <= inp.levels <= 256) {
        Some("levels out of range (1..=256)"@)
    } else if !param_fits(inp.recipe.atomization, inp.levels) {
        Some(length_msg("atomization"@, inp.levels))
    } else if !param_fits(inp.recipe.pattern, inp.levels) {
        Some(length_msg("pattern"@, inp.levels))
    } else if !param_fits(inp.recipe.flow, inp.levels) {
        Some(length_msg("flow"@, inp.levels))
    } else {
        None
    }
}

fn check_param(name: &str, p: &RecipeParam, levels: i64) -> (r: Result<(), String>)
    requires
        1 <= levels <= 256,
    ensures
        match r {
            Ok(_) => param_fits(*p, levels),
            Err(m) => !param_fits(*p, levels) && m@ == length_msg(name@, levels),
        },
{
    let n = levels as usize;
    if p.table.len() != n || p.applied.len() != n {
        let mut m = String::new();
        push_str(&mut m, name);
        push_str(&mut m, ": table/applied length must equal levels (");
        push_i64(&mut m, levels);
        push_str(&mut m, ")");
        assert(m@ =~= length_msg(name@, levels));
        return Err(m);
    }
    Ok(())
}

pub fn check_recipe(inp: &RecipeIn) -> (r: Result<(), String>)
    ensures
        match r {
            Ok(_) => recipe_error(*inp) is None,
            Err(m) => recipe_error(*inp) == Some(m@),
        },
{
    if inp.levels <= 0 || inp.levels > 256 {
        let mut m = String::new();
        push_str(&mut m, "levels out of range (1..=256)");
        return Err(m);
    }
    check_param("atomization", &inp.recipe.atomization, inp.levels)?;
    check_param("pattern", &inp.recipe.pattern, inp.levels)?;
    check_param("flow", &inp.recipe.flow, inp.levels)?;
    Ok(())
}

// ── PLC model polls ────────────────────────────────────────────────────────

/// A poll changes the state unless the edge's stored model is the same.
pub open spec fn model_changed(prev: Option<PlcStateRow>, model: Seq<char>) -> bool {
    match prev {
        Some(p) => match p.model_no {
            Some(m) => m@ != model,
            None => true,
        },
        None => true,
    }
}

pub fn plc_model_changed(prev: &Option<PlcStateRow>, model_no: &str) -> (r: bool)
    ensures
        r == model_changed(*prev, model_no@),
{
    match prev {
        Some(p) => match &p.model_no {
            Some(m) => !str_eq(m.as_str(), model_no),
            None => true,
        },
        None => true,
    }
}

pub open spec fn prev_camera_model(prev: Option<PlcStateRow>) -> Option<Seq<char>> {
    match prev {
        Some(p) => opt_str_view(p.camera_model_no),
        None => None,
    }
}

pub open spec fn prev_camera_ts(prev: Option<PlcStateRow>) -> Option<i64> {
    match prev {
        Some(p) => p.camera_ts,
        None => None,
    }
}

pub open spec fn prev_model(prev: Option<PlcStateRow>) -> Option<Seq<char>> {
    match prev {
        Some(p) => opt_str_view(p.model_no),
        None => None,
    }
}

pub open spec fn prev_plc_ts(prev: Option<PlcStateRow>) -> Option<i64> {
    match prev {
        Some(p) => p.plc_ts,
        None => None,
    }
}

/// The state an edge's PLC poll leaves: the polled model and time, the
/// camera side carried over from the previous state.
pub fn plc_model_state(prev: &Option<PlcStateRow>, inp: &PlcModelIn, plc_ts_ms: i64, now_ms: i64) -> (r: PlcStateRow)
    ensures
        r.edge_id@ == inp.edge_id@,
        opt_str_view(r.model_no) == Some(inp.model_no@),
        r.plc_ts == Some(plc_ts_ms),
        opt_str_view(r.camera_model_no) == prev_camera_model(*prev),
        r.camera_ts == prev_camera_ts(*prev),
        r.updated_at == now_ms,
{
    let (cam, cts) = match prev {
        Some(p) => (p.camera_model_no.clone(), p.camera_ts),
        None => (None, None),
    };
    PlcStateRow {
        edge_id: inp.edge_id.clone(),
        model_no: Some(inp.model_no.clone()),
        plc_ts: Some(plc_ts_ms),
        camera_model_no: cam,
        camera_ts: cts,
        updated_at: now_ms,
    }
}

/// The job row a changed PLC poll is recorded as.
pub fn plc_model_job(event_id: String, inp: &PlcModelIn, plc_ts_ms: i64) -> (r: JobIn)
    ensures
        r.event_id@ == event_id@,
        r.edge_id@ == inp.edge_id@,
        opt_view(r.plc_model_no) == Some(inp.model_no@),
        r.camera_model_no is None,
        r.plc_ts == Some(plc_ts_ms),
        r.camera_ts is None,
        r.confidence_bits is None,
        r.image_ref is None,
{
    JobIn {
        event_id,
        edge_id: inp.edge_id.clone(),
        plc_model_no: Some(inp.model_no.clone()),
        camera_model_no: None,
        plc_ts: Some(plc_ts_ms),
        camera_ts: None,
        confidence_bits: None,
        image_ref: None,
    }
}

// ── jobs ───────────────────────────────────────────────────────────────────

/// The instant a job's work date is taken from: the PLC's time, else the
/// camera's, else now.
pub fn job_date_source(job: &JobIn, now_ms: i64) -> (r: i64)
    ensures
        r == match job.plc_ts {
            Some(t) => t,
            None => match job.camera_ts {
                Some(t) => t,
                None => now_ms,
            },
        },
{
    match job.plc_ts {
        Some(t) => t,
        None => match job.camera_ts {
            Some(t) => t,
            None => now_ms,
        },
    }
}

/// After a camera reading is stored, the edge's current state takes the
/// camera's model and time; the PLC side is carried over. Nothing changes
/// when the job has no camera model.
pub fn camera_state(prev: &Option<PlcStateRow>, job: &JobIn, created_at: i64) -> (r: Option<PlcStateRow>)
    ensures
        match r {
            Some(s) => nonempty(opt_view(job.camera_model_no)) is Some && s.edge_id@ == job.edge_id@
                && opt_str_view(s.model_no) == prev_model(*prev) && s.plc_ts == prev_plc_ts(*prev)
                && opt_str_view(s.camera_model_no) == opt_view(job.camera_model_no) && s.camera_ts
                == job.camera_ts && s.updated_at == created_at,
            None => nonempty(opt_view(job.camera_model_no)) is None,
        },
{
    let cam = match &job.camera_model_no {
        Some(c) => c,
        None => return None,
    };
    if cam.as_str().is_empty() {
        return None;
    }
    let (model, pts) = match prev {
        Some(p) => (p.model_no.clone(), p.plc_ts),
        None => (None, None),
    };
    Some(PlcStateRow {
        edge_id: job.edge_id.clone(),
        model_no: model,
        plc_ts: pts,
        camera_model_no: Some(cam.clone()),
        camera_ts: job.camera_ts,
        updated_at: created_at,
    })
}

/// The answer to a job whose event id is already stored.
pub fn duplicate_response() -> (r: IngestResponse)
    ensures
        r.accepted == 0,
        r.duplicates == 1,
        r.rejected@.len() == 0,
{
    IngestResponse { accepted: 0, duplicates: 1, rejected: Vec::new() }
}

/// The answer to an insert: accepted, or rejected with the identifier that
/// failed; other failures are passed on.
pub fn insert_outcome(event_id: String, inserted: Result<(), RepoError>) -> (r: Result<IngestResponse, RepoError>)
    ensures
        match inserted {
            Ok(_) => r matches Ok(resp) && resp.accepted == 1 && resp.duplicates == 0 && resp.rejected@.len()
                == 0,
            Err(RepoError::InvalidIdentifier(bad)) => r matches Ok(resp) && resp.accepted == 0
                && resp.duplicates == 0 && resp.rejected@.len() == 1 && resp.rejected@[0].event_id@
                == event_id@ && resp.rejected@[0].reason@ == "invalid identifier: "@ + bad@,
            Err(e) => r == Err::<IngestResponse, RepoError>(e),
        },
{
    match inserted {
        Ok(()) => Ok(IngestResponse { accepted: 1, duplicates: 0, rejected: Vec::new() }),
        Err(RepoError::InvalidIdentifier(bad)) => {
            let mut reason = String::new();
            push_str(&mut reason, "invalid identifier: ");
            push_str(&mut reason, bad.as_str());
            let mut rejected: Vec<Rejected> = Vec::new();
            rejected.push(Rejected { event_id, reason });
            Ok(IngestResponse { accepted: 0, duplicates: 0, rejected })
        },
        Err(e) => Err(e),
    }
}

/// A reconcile run writes only when it was posted with a valid key and
/// `dry_run=false` was given explicitly.
pub fn is_dry_run(may_write: bool, dry_run_param: Option<&str>) -> (r: bool)
    ensures
        r == (!may_write || !(dry_run_param matches Some(p) && p@ == "false"@)),
{
    if !may_write {
        return true;
    }
    match dry_run_param {
        Some(p) => !str_eq(p, "false"),
        None => true,
    }
}

// ── the order of a post's steps ────────────────────────────────────────────

/// What a model-change post has learned so far.
pub enum PlcPostEvent {
    /// The edge's stored state was read; `changed` is `plc_model_changed`.
    StateRead { changed: bool },
    /// The edge's new state was stored (whatever the store answered).
    StateStored { changed: bool },
    /// Whether a job with the post's event id is already stored.
    JobLookedUp(Result<bool, RepoError>),
    /// The answer to inserting the model-change job.
    JobInserted(Result<(), RepoError>),
}

/// What the gateway does next with a model-change post.
pub enum PlcPostAction {
    /// Store the edge's new state.
    StoreState,
    /// Answer that the model is unchanged; no job is written.
    ReplyUnchanged,
    /// Look the event id up among the stored jobs.
    LookUpJob,
    /// Answer that the event was already stored.
    ReplyDuplicate,
    /// Insert the model-change job.
    InsertJob,
    /// Answer that the job was stored.
    ReplyAccepted,
    /// Answer with the store's error.
    ReplyError(RepoError),
}

/// The step a model-change post takes next: the state is always stored;
/// an unchanged model is answered at once; a changed one is looked up, a
/// stored one answered as a duplicate, a new one inserted.
pub fn plc_post_step(ev: PlcPostEvent) -> (r: PlcPostAction)
    ensures
        match ev {
            PlcPostEvent::StateRead { .. } => r == PlcPostAction::StoreState,
            PlcPostEvent::StateStored { changed } => r == if changed {
                PlcPostAction::LookUpJob
            } else {
                PlcPostAction::ReplyUnchanged
            },
            PlcPostEvent::JobLookedUp(Ok(exists)) => r == if exists {
                PlcPostAction::ReplyDuplicate
            } else {
                PlcPostAction::InsertJob
            },
            PlcPostEvent::JobLookedUp(Err(e)) => r == PlcPostAction::ReplyError(e),
            PlcPostEvent::JobInserted(Ok(_)) => r == PlcPostAction::ReplyAccepted,
            PlcPostEvent::JobInserted(Err(e)) => r == PlcPostAction::ReplyError(e),
        },
{
    match ev {
        PlcPostEvent::StateRead { .. } => PlcPostAction::StoreState,
        PlcPostEvent::StateStored { changed } => if changed {
            PlcPostAction::LookUpJob
        } else {
            PlcPostAction::ReplyUnchanged
        },
        PlcPostEvent::JobLookedUp(Ok(exists)) => if exists {
            PlcPostAction::ReplyDuplicate
        } else {
            PlcPostAction::InsertJob
        },
        PlcPostEvent::JobLookedUp(Err(e)) => PlcPostAction::ReplyError(e),
        PlcPostEvent::JobInserted(Ok(_)) => PlcPostAction::ReplyAccepted,
        PlcPostEvent::JobInserted(Err(e)) => PlcPostAction::ReplyError(e),
    }
}

/// What a job post has learned so far.
pub enum JobPostEvent {
    /// Whether a job with the post's event id is already stored.
    JobLookedUp(Result<bool, RepoError>),
    /// Whether inserting the job succeeded.
    JobInserted { ok: bool },
}

/// What the gateway does next with a job post.
pub enum JobPostAction {
    /// Answer that the event was already stored (`duplicate_response`).
    ReplyDuplicate,
    /// Insert the job.
    InsertJob,
    /// Answer with the store's error.
    ReplyError(RepoError),
    /// Update the edge's state from the camera reading, then answer with
    /// `insert_outcome`.
    RecordCameraThenAnswer,
    /// Answer with `insert_outcome`; the state is left as it was.
    Answer,
}

/// The step a job post takes next: a stored event id is answered as a
/// duplicate, a new one inserted; the edge's state follows the camera only
/// when the insert succeeded.
pub fn job_post_step(ev: JobPostEvent) -> (r: JobPostAction)
    ensures
        match ev {
            JobPostEvent::JobLookedUp(Ok(exists)) => r == if exists {
                JobPostAction::ReplyDuplicate
            } else {
                JobPostAction::InsertJob
            },
            JobPostEvent::JobLookedUp(Err(e)) => r == JobPostAction::ReplyError(e),
            JobPostEvent::JobInserted { ok } => r == if ok {
                JobPostAction::RecordCameraThenAnswer
            } else {
                JobPostAction::Answer
            },
        },
{
    match ev {
        JobPostEvent::JobLookedUp(Ok(exists)) => if exists {
            JobPostAction::ReplyDuplicate
        } else {
            JobPostAction::InsertJob
        },
        JobPostEvent::JobLookedUp(Err(e)) => JobPostAction::ReplyError(e),
        JobPostEvent::JobInserted { ok } => if ok {
            JobPostAction::RecordCameraThenAnswer
        } else {
            JobPostAction::Answer
        },
    }
}

} // verus!
