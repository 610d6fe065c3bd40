//! Generated plans: the shape a model's plan JSON must have, decoding it from
//! a parsed JSON tree (every field required, nothing defaulted), and the rows
//! a plan is saved as (phase markers, optional texts, stack panes).

use vstd::prelude::*;
use crate::json::{extract_json, get, get_field, is_obj, str_of, Json};
use crate::text::{
    all_ws, ascii_lower, ascii_lower_char, chars_of, is_ascii_alnum, is_ascii_alnum_char, is_blank,
    push_all, push_str, string_of, take, take_chars, trim, trimmed,
};

verus! {

#[derive(Debug)]
pub struct GeneratedPlan {
    pub current_state: String,
    pub body_md: String,
    pub confidence: String,
    pub notes: String,
    pub phases: Vec<GenPhase>,
    pub decisions: Vec<GenDecision>,
    pub stack: GenStack,
}

#[derive(Debug)]
pub struct GenPhase {
    pub title: String,
    pub goal: String,
    pub tasks: Vec<GenTask>,
}

#[derive(Debug)]
pub struct GenTask {
    pub title: String,
    pub body: String,
    pub verification: String,
}

#[derive(Debug)]
pub struct GenDecision {
    pub topic: String,
    pub choice: String,
    pub rationale: String,
    pub alternatives: String,
    pub consequences: String,
}

#[derive(Debug)]
pub struct GenStack {
    pub frontend: Option<String>,
    pub backend: Option<String>,
    pub database: Option<String>,
    pub deployment: Option<String>,
    pub pipes: Option<String>,
}

// ---------------------------------------------------------------------------
// The expected shape
// ---------------------------------------------------------------------------

/// The string member `j[key]`.
pub open spec fn str_at(j: Json, key: Seq<char>) -> Option<Seq<char>> {
    str_of(get(j, key))
}

/// The array member `j[key]`.
pub open spec fn arr_at(j: Json, key: Seq<char>) -> Option<Seq<Json>> {
    match get(j, key) {
        Some(Json::Arr(v)) => Some(v@),
        _ => None,
    }
}

/// A nullable string member: absent or `null` reads as nothing.
pub open spec fn opt_str_ok(o: Option<Json>) -> bool {
    match o {
        None => true,
        Some(Json::Null) => true,
        Some(Json::Str(_)) => true,
        _ => false,
    }
}

pub open spec fn opt_str_val(o: Option<Json>) -> Option<Seq<char>> {
    match o {
        Some(Json::Str(s)) => Some(s@),
        _ => None,
    }
}

pub open spec fn view_opt(o: Option<String>) -> Option<Seq<char>> {
    match o {
        Some(s) => Some(s@),
        None => None,
    }
}

pub open spec fn task_ok(j: Json) -> bool {
    &&& str_at(j, "title"@) is Some
    &&& str_at(j, "body"@) is Some
    &&& str_at(j, "verification"@) is Some
}

pub open spec fn task_is(j: Json, t: GenTask) -> bool {
    &&& str_at(j, "title"@) == Some(t.title@)
    &&& str_at(j, "body"@) == Some(t.body@)
    &&& str_at(j, "verification"@) == Some(t.verification@)
}

pub open spec fn all_tasks_ok(ts: Seq<Json>) -> bool {
    forall|i: int| 0 <= i < ts.len() ==> #[trigger] task_ok(ts[i])
}

pub open spec fn all_phases_ok(ps: Seq<Json>) -> bool {
    forall|i: int| 0 <= i < ps.len() ==> #[trigger] phase_ok(ps[i])
}

pub open spec fn all_decisions_ok(ds: Seq<Json>) -> bool {
    forall|i: int| 0 <= i < ds.len() ==> #[trigger] decision_ok(ds[i])
}

pub open spec fn phase_ok(j: Json) -> bool {
    &&& str_at(j, "title"@) is Some
    &&& str_at(j, "goal"@) is Some
    &&& match arr_at(j, "tasks"@) {
        Some(ts) => all_tasks_ok(ts),
        None => false,
    }
}

pub open spec fn phase_is(j: Json, p: GenPhase) -> bool {
    &&& str_at(j, "title"@) == Some(p.title@)
    &&& str_at(j, "goal"@) == Some(p.goal@)
    &&& match arr_at(j, "tasks"@) {
        Some(ts) => ts.len() == p.tasks@.len() && forall|i: int|
            0 <= i < ts.len() ==> #[trigger] task_is(ts[i], p.tasks@[i]),
        None => false,
    }
}

pub open spec fn decision_ok(j: Json) -> bool {
    &&& str_at(j, "topic"@) is Some
    &&& str_at(j, "choice"@) is Some
    &&& str_at(j, "rationale"@) is Some
    &&& str_at(j, "alternatives"@) is Some
    &&& str_at(j, "consequences"@) is Some
}

pub open spec fn decision_is(j: Json, d: GenDecision) -> bool {
    &&& str_at(j, "topic"@) == Some(d.topic@)
    &&& str_at(j, "choice"@) == Some(d.choice@)
    &&& str_at(j, "rationale"@) == Some(d.rationale@)
    &&& str_at(j, "alternatives"@) == Some(d.alternatives@)
    &&& str_at(j, "consequences"@) == Some(d.consequences@)
}

pub open spec fn stack_ok(j: Json) -> bool {
    &&& is_obj(Some(j))
    &&& opt_str_ok(get(j, "frontend"@))
    &&& opt_str_ok(get(j, "backend"@))
    &&& opt_str_ok(get(j, "database"@))
    &&& opt_str_ok(get(j, "deployment"@))
    &&& opt_str_ok(get(j, "pipes"@))
}

pub open spec fn stack_is(j: Json, s: GenStack) -> bool {
    &&& opt_str_val(get(j, "frontend"@)) == view_opt(s.frontend)
    &&& opt_str_val(get(j, "backend"@)) == view_opt(s.backend)
    &&& opt_str_val(get(j, "database"@)) == view_opt(s.database)
    &&& opt_str_val(get(j, "deployment"@)) == view_opt(s.deployment)
    &&& opt_str_val(get(j, "pipes"@)) == view_opt(s.pipes)
}

/// The JSON has every field of a plan, each of the right kind.
pub open spec fn plan_ok(j: Json) -> bool {
    &&& str_at(j, "current_state"@) is Some
    &&& str_at(j, "body_md"@) is Some
    &&& str_at(j, "confidence"@) is Some
    &&& str_at(j, "notes"@) is Some
    &&& match arr_at(j, "phases"@) {
        Some(ps) => all_phases_ok(ps),
        None => false,
    }
    &&& match arr_at(j, "decisions"@) {
        Some(ds) => all_decisions_ok(ds),
        None => false,
    }
    &&& match get(j, "stack"@) {
        Some(s) => stack_ok(s),
        None => false,
    }
}

/// The plan holds exactly what the JSON says.
pub open spec fn plan_is(j: Json, p: GeneratedPlan) -> bool {
    &&& str_at(j, "current_state"@) == Some(p.current_state@)
    &&& str_at(j, "body_md"@) == Some(p.body_md@)
    &&& str_at(j, "confidence"@) == Some(p.confidence@)
    &&& str_at(j, "notes"@) == Some(p.notes@)
    &&& match arr_at(j, "phases"@) {
        Some(ps) => ps.len() == p.phases@.len() && forall|i: int|
            0 <= i < ps.len() ==> #[trigger] phase_is(ps[i], p.phases@[i]),
        None => false,
    }
    &&& match arr_at(j, "decisions"@) {
        Some(ds) => ds.len() == p.decisions@.len() && forall|i: int|
            0 <= i < ds.len() ==> #[trigger] decision_is(ds[i], p.decisions@[i]),
        None => false,
    }
    &&& match get(j, "stack"@) {
        Some(s) => stack_is(s, p.stack),
        None => false,
    }
}

// ---------------------------------------------------------------------------
// Decoding
// ---------------------------------------------------------------------------

fn req_str(j: &Json, key: &str) -> (r: Option<String>)
    ensures
        match r {
            Some(s) => str_at(*j, key@) == Some(s@),
            None => str_at(*j, key@) is None,
        },
{
    match get_field(j, key) {
        Some(Json::Str(s)) => Some(s.clone()),
        _ => None,
    }
}

fn opt_str(j: &Json, key: &str) -> (r: Result<Option<String>, ()>)
    ensures
        r is Ok <==> opt_str_ok(get(*j, key@)),
        r matches Ok(v) ==> view_opt(v) == opt_str_val(get(*j, key@)),
{
    match get_field(j, key) {
        None => Ok(None),
        Some(Json::Null) => Ok(None),
        Some(Json::Str(s)) => Ok(Some(s.clone())),
        _ => Err(()),
    }
}

fn decode_task(j: &Json) -> (r: Option<GenTask>)
    ensures
        r is Some <==> task_ok(*j),
        r matches Some(t) ==> task_is(*j, t),
{
    let title = req_str(j, "title");
    let body = req_str(j, "body");
    let verification = req_str(j, "verification");
    match (title, body, verification) {
        (Some(title), Some(body), Some(verification)) => Some(GenTask { title, body, verification }),
        _ => None,
    }
}

fn decode_phase(j: &Json) -> (r: Option<GenPhase>)
    ensures
        r is Some <==> phase_ok(*j),
        r matches Some(p) ==> phase_is(*j, p),
{
    let title = req_str(j, "title");
    let goal = req_str(j, "goal");
    let items = match get_field(j, "tasks") {
        Some(Json::Arr(v)) => v,
        _ => {
            return None;
        },
    };
    let mut tasks: Vec<GenTask> = Vec::new();
    let mut i: usize = 0;
    while i < items.len()
        invariant
            i <= items@.len(),
            arr_at(*j, "tasks"@) == Some(items@),
            tasks@.len() == i,
            forall|k: int| 0 <= k < i ==> #[trigger] task_ok(items@[k]),
            forall|k: int| 0 <= k < i ==> #[trigger] task_is(items@[k], tasks@[k]),
        decreases items@.len() - i,
    {
        match decode_task(&items[i]) {
            Some(t) => tasks.push(t),
            None => {
                assert(!task_ok(items@[i as int]));
                assert(!all_tasks_ok(items@));
                return None;
            },
        }
        i = i + 1;
    }
    match (title, goal) {
        (Some(title), Some(goal)) => Some(GenPhase { title, goal, tasks }),
        _ => None,
    }
}

fn decode_decision(j: &Json) -> (r: Option<GenDecision>)
    ensures
        r is Some <==> decision_ok(*j),
        r matches Some(d) ==> decision_is(*j, d),
{
    let topic = req_str(j, "topic");
    let choice = req_str(j, "choice");
    let rationale = req_str(j, "rationale");
    let alternatives = req_str(j, "alternatives");
    let consequences = req_str(j, "consequences");
    match (topic, choice, rationale, alternatives, consequences) {
        (Some(topic), Some(choice), Some(rationale), Some(alternatives), Some(consequences)) => Some(
            GenDecision { topic, choice, rationale, alternatives, consequences },
        ),
        _ => None,
    }
}

fn decode_stack(j: &Json) -> (r: Option<GenStack>)
    ensures
        r is Some <==> stack_ok(*j),
        r matches Some(s) ==> stack_is(*j, s),
{
    match j {
        Json::Obj(_) => {},
        _ => {
            return None;
        },
    }
    let frontend = opt_str(j, "frontend");
    let backend = opt_str(j, "backend");
    let database = opt_str(j, "database");
    let deployment = opt_str(j, "deployment");
    let pipes = opt_str(j, "pipes");
    match (frontend, backend, database, deployment, pipes) {
        (Ok(frontend), Ok(backend), Ok(database), Ok(deployment), Ok(pipes)) => Some(
            GenStack { frontend, backend, database, deployment, pipes },
        ),
        _ => None,
    }
}

fn decode_phases(j: &Json) -> (r: Option<Vec<GenPhase>>)
    ensures
        r is Some <==> match arr_at(*j, "phases"@) {
            Some(ps) => all_phases_ok(ps),
            None => false,
        },
        r matches Some(v) ==> match arr_at(*j, "phases"@) {
            Some(ps) => ps.len() == v@.len() && forall|i: int|
                0 <= i < ps.len() ==> #[trigger] phase_is(ps[i], v@[i]),
            None => false,
        },
{
    let items = match get_field(j, "phases") {
        Some(Json::Arr(v)) => v,
        _ => {
            return None;
        },
    };
    let mut out: Vec<GenPhase> = Vec::new();
    let mut i: usize = 0;
    while i < items.len()
        invariant
            i <= items@.len(),
            arr_at(*j, "phases"@) == Some(items@),
            out@.len() == i,
            forall|k: int| 0 <= k < i ==> #[trigger] phase_ok(items@[k]),
            forall|k: int| 0 <= k < i ==> #[trigger] phase_is(items@[k], out@[k]),
        decreases items@.len() - i,
    {
        match decode_phase(&items[i]) {
            Some(p) => out.push(p),
            None => {
                assert(!phase_ok(items@[i as int]));
                assert(!all_phases_ok(items@));
                return None;
            },
        }
        i = i + 1;
    }
    Some(out)
}

fn decode_decisions(j: &Json) -> (r: Option<Vec<GenDecision>>)
    ensures
        r is Some <==> match arr_at(*j, "decisions"@) {
            Some(ds) => all_decisions_ok(ds),
            None => false,
        },
        r matches Some(v) ==> match arr_at(*j, "decisions"@) {
            Some(ds) => ds.len() == v@.len() && forall|i: int|
                0 <= i < ds.len() ==> #[trigger] decision_is(ds[i], v@[i]),
            None => false,
        },
{
    let items = match get_field(j, "decisions") {
        Some(Json::Arr(v)) => v,
        _ => {
            return None;
        },
    };
    let mut out: Vec<GenDecision> = Vec::new();
    let mut i: usize = 0;
    while i < items.len()
        invariant
            i <= items@.len(),
            arr_at(*j, "decisions"@) == Some(items@),
            out@.len() == i,
            forall|k: int| 0 <= k < i ==> #[trigger] decision_ok(items@[k]),
            forall|k: int| 0 <= k < i ==> #[trigger] decision_is(items@[k], out@[k]),
        decreases items@.len() - i,
    {
        match decode_decision(&items[i]) {
            Some(d) => out.push(d),
            None => {
                assert(!decision_ok(items@[i as int]));
                assert(!all_decisions_ok(items@));
                return None;
            },
        }
        i = i + 1;
    }
    Some(out)
}

/// The message for a plan that does not have the expected shape.
pub open spec fn shape_error(field: Seq<char>) -> Seq<char> {
    "The model's plan JSON did not match the expected shape: missing or mistyped field `"@ + field
        + "`."@
}

fn shape_error_for(field: &str) -> (r: String)
    ensures
        r@ == shape_error(field@),
{
    let mut out: Vec<char> = Vec::new();
    push_str(&mut out, "The model's plan JSON did not match the expected shape: missing or mistyped field `");
    push_str(&mut out, field);
    push_str(&mut out, "`.");
    string_of(&out)
}

/// The first field of a plan, in the order they are read, that is missing
/// or of the wrong kind.
pub open spec fn first_bad_field(j: Json) -> Option<Seq<char>> {
    if str_at(j, "current_state"@) is None {
        Some("current_state"@)
    } else if str_at(j, "body_md"@) is None {
        Some("body_md"@)
    } else if str_at(j, "confidence"@) is None {
        Some("confidence"@)
    } else if str_at(j, "notes"@) is None {
        Some("notes"@)
    } else if !(match arr_at(j, "phases"@) {
        Some(ps) => all_phases_ok(ps),
        None => false,
    }) {
        Some("phases"@)
    } else if !(match arr_at(j, "decisions"@) {
        Some(ds) => all_decisions_ok(ds),
        None => false,
    }) {
        Some("decisions"@)
    } else if !(match get(j, "stack"@) {
        Some(s) => stack_ok(s),
        None => false,
    }) {
        Some("stack"@)
    } else {
        None
    }
}

/// Decode a parsed plan. Every field is required (nullable stack panes may
/// be absent or null); nothing is defaulted. A plan without one of them is
/// refused, naming the first such field.
pub fn plan_from_json(j: &Json) -> (r: Result<GeneratedPlan, String>)
    ensures
        r is Ok <==> plan_ok(*j),
        r matches Ok(p) ==> plan_is(*j, p),
        match first_bad_field(*j) {
            Some(f) => r matches Err(e) && e@ == shape_error(f),
            None => r is Ok,
        },
{
    let current_state = match req_str(j, "current_state") {
        Some(s) => s,
        None => {
            return Err(shape_error_for("current_state"));
        },
    };
    let body_md = match req_str(j, "body_md") {
        Some(s) => s,
        None => {
            return Err(shape_error_for("body_md"));
        },
    };
    let confidence = match req_str(j, "confidence") {
        Some(s) => s,
        None => {
            return Err(shape_error_for("confidence"));
        },
    };
    let notes = match req_str(j, "notes") {
        Some(s) => s,
        None => {
            return Err(shape_error_for("notes"));
        },
    };
    let phases = match decode_phases(j) {
        Some(v) => v,
        None => {
            return Err(shape_error_for("phases"));
        },
    };
    let decisions = match decode_decisions(j) {
        Some(v) => v,
        None => {
            return Err(shape_error_for("decisions"));
        },
    };
    let stack = match get_field(j, "stack") {
        Some(s) => match decode_stack(s) {
            Some(st) => st,
            None => {
                return Err(shape_error_for("stack"));
            },
        },
        None => {
            return Err(shape_error_for("stack"));
        },
    };
    Ok(GeneratedPlan { current_state, body_md, confidence, notes, phases, decisions, stack })
}

/// The JSON text of a plan inside a model reply: the first balanced object.
pub fn plan_json_text(raw: &str) -> (r: Result<String, String>)
    ensures
        match r {
            Ok(s) => crate::json::extract_json_spec(raw@) == Some(s@),
            Err(e) => crate::json::extract_json_spec(raw@) is None && e@
                == "No JSON object found in the model output."@,
        },
{
    match extract_json(raw) {
        Some(s) => Ok(s),
        None => Err("No JSON object found in the model output.".to_owned()),
    }
}


// ---------------------------------------------------------------------------
// Saving: the rows a plan is written as
// ---------------------------------------------------------------------------

/// One step of slugging: ASCII letters and digits are kept (lowercased); any
/// run of other characters after some kept one becomes a single dash.
pub open spec fn slug_fold(s: Seq<char>) -> (Seq<char>, bool)
    decreases s.len(),
{
    if s.len() == 0 {
        (Seq::empty(), false)
    } else {
        let (out, prev_dash) = slug_fold(s.drop_last());
        let c = s.last();
        if is_ascii_alnum(c) {
            (out.push(ascii_lower(c)), false)
        } else if out.len() > 0 && !prev_dash {
            (out.push('-'), true)
        } else {
            (out, prev_dash)
        }
    }
}

pub open spec fn trim_dash_start(s: Seq<char>) -> Seq<char>
    decreases s.len(),
{
    if s.len() > 0 && s[0] == '-' {
        trim_dash_start(s.drop_first())
    } else {
        s
    }
}

pub open spec fn trim_dash_end(s: Seq<char>) -> Seq<char>
    decreases s.len(),
{
    if s.len() > 0 && s.last() == '-' {
        trim_dash_end(s.drop_last())
    } else {
        s
    }
}

/// The slug of a title: at most 40 characters, `phase` when nothing is left.
pub open spec fn slug_text(s: Seq<char>) -> Seq<char> {
    let t = trim_dash_end(trim_dash_start(slug_fold(s).0));
    if t.len() == 0 {
        "phase"@
    } else {
        take(t, 40)
    }
}

/// A character a slug may hold: a lowercase ASCII letter, a digit, or a dash.
pub open spec fn slug_char(c: char) -> bool {
    ('a' <= c && c <= 'z') || ('0' <= c && c <= '9') || c == '-'
}

proof fn lemma_slug_fold_shape(s: Seq<char>)
    ensures
        forall|i: int| 0 <= i < slug_fold(s).0.len() ==> slug_char(#[trigger] slug_fold(s).0[i]),
    decreases s.len(),
{
    if s.len() > 0 {
        lemma_slug_fold_shape(s.drop_last());
        let (out, prev) = slug_fold(s.drop_last());
        let c = s.last();
        if is_ascii_alnum(c) {
            let l = ascii_lower(c);
            assert(slug_char(l)) by {
                if 'A' <= c && c <= 'Z' {
                    assert(0x61 <= (c as u32) + 32 <= 0x7A);
                }
            }
            assert forall|i: int| 0 <= i < out.push(l).len() implies slug_char(#[trigger] out.push(l)[i]) by {
                if i < out.len() {
                    assert(out.push(l)[i] == out[i]);
                }
            }
        } else if out.len() > 0 && !prev {
            assert forall|i: int| 0 <= i < out.push('-').len() implies slug_char(#[trigger] out.push('-')[i]) by {
                if i < out.len() {
                    assert(out.push('-')[i] == out[i]);
                }
            }
        }
    }
}

proof fn lemma_dash_start_shape(s: Seq<char>)
    ensures
        trim_dash_start(s).len() <= s.len(),
        trim_dash_start(s).len() == 0 || trim_dash_start(s)[0] != '-',
        trim_dash_start(s) == s.subrange(s.len() - trim_dash_start(s).len(), s.len() as int),
    decreases s.len(),
{
    if s.len() > 0 && s[0] == '-' {
        lemma_dash_start_shape(s.drop_first());
        let t = trim_dash_start(s.drop_first());
        assert(s.drop_first().subrange(s.len() - 1 - t.len(), s.len() - 1) =~= s.subrange(
            s.len() - t.len(),
            s.len() as int,
        ));
    } else {
        assert(s.subrange(0, s.len() as int) =~= s);
    }
}

proof fn lemma_dash_end_shape(s: Seq<char>)
    ensures
        trim_dash_end(s).len() <= s.len(),
        trim_dash_end(s) == s.subrange(0, trim_dash_end(s).len() as int),
    decreases s.len(),
{
    if s.len() > 0 && s.last() == '-' {
        lemma_dash_end_shape(s.drop_last());
        let t = trim_dash_end(s.drop_last());
        assert(s.drop_last().subrange(0, t.len() as int) =~= s.subrange(0, t.len() as int));
    } else {
        assert(s.subrange(0, s.len() as int) =~= s);
    }
}

/// Law: a slug is never empty, holds at most 40 characters, only lowercase
/// ASCII letters, digits and dashes, and does not start with a dash.
pub proof fn law_slug_shape(s: Seq<char>)
    ensures
        1 <= slug_text(s).len() <= 40,
        forall|i: int| 0 <= i < slug_text(s).len() ==> slug_char(#[trigger] slug_text(s)[i]),
        slug_text(s)[0] != '-',
{
    let f = slug_fold(s).0;
    lemma_slug_fold_shape(s);
    lemma_dash_start_shape(f);
    let a = trim_dash_start(f);
    lemma_dash_end_shape(a);
    let t = trim_dash_end(a);
    if t.len() == 0 {
        reveal_strlit("phase");
        assert forall|i: int| 0 <= i < slug_text(s).len() implies slug_char(#[trigger] slug_text(s)[i]) by {}
    } else {
        let k = f.len() - a.len();
        assert forall|i: int| 0 <= i < t.len() implies slug_char(#[trigger] t[i]) by {
            assert(t[i] == a[i]);
            assert(a[i] == f[k + i]);
        }
        assert(t[0] == a[0]);
        let r = take(t, 40);
        assert forall|i: int| 0 <= i < r.len() implies slug_char(#[trigger] r[i]) by {
            assert(r[i] == t[i]);
        }
        assert(r[0] == t[0]);
    }
}

/// No two dashes stand next to each other.
pub open spec fn no_double_dash(s: Seq<char>) -> bool {
    forall|i: int| 0 <= i < s.len() - 1 ==> !(#[trigger] s[i] == '-' && s[i + 1] == '-')
}

proof fn lemma_slug_fold_single_dashes(s: Seq<char>)
    ensures
        no_double_dash(slug_fold(s).0),
        slug_fold(s).1 <==> (slug_fold(s).0.len() > 0 && slug_fold(s).0.last() == '-'),
    decreases s.len(),
{
    if s.len() > 0 {
        lemma_slug_fold_single_dashes(s.drop_last());
        let (out, prev) = slug_fold(s.drop_last());
        let c = s.last();
        if is_ascii_alnum(c) {
            let l = ascii_lower(c);
            assert(l != '-') by {
                if 'A' <= c && c <= 'Z' {
                    assert(0x61 <= (c as u32) + 32 <= 0x7A);
                }
            }
            let o = out.push(l);
            assert forall|i: int| 0 <= i < o.len() - 1 implies !(#[trigger] o[i] == '-' && o[i + 1] == '-') by {
                if i + 1 < out.len() {
                    assert(o[i] == out[i] && o[i + 1] == out[i + 1]);
                }
            }
        } else if out.len() > 0 && !prev {
            let o = out.push('-');
            assert forall|i: int| 0 <= i < o.len() - 1 implies !(#[trigger] o[i] == '-' && o[i + 1] == '-') by {
                if i + 1 < out.len() {
                    assert(o[i] == out[i] && o[i + 1] == out[i + 1]);
                } else {
                    assert(o[i] == out.last());
                }
            }
        }
    }
}

proof fn lemma_slug_fold_of_no_alnum(s: Seq<char>)
    requires
        forall|i: int| 0 <= i < s.len() ==> !is_ascii_alnum(#[trigger] s[i]),
    ensures
        slug_fold(s).0.len() == 0,
    decreases s.len(),
{
    if s.len() > 0 {
        assert forall|i: int| 0 <= i < s.drop_last().len() implies !is_ascii_alnum(#[trigger] s.drop_last()[i]) by {
            assert(s.drop_last()[i] == s[i]);
        }
        lemma_slug_fold_of_no_alnum(s.drop_last());
        assert(!is_ascii_alnum(s[s.len() - 1]));
    }
}

proof fn lemma_no_double_dash_sub(s: Seq<char>, a: int, b: int)
    requires
        no_double_dash(s),
        0 <= a <= b <= s.len(),
    ensures
        no_double_dash(s.subrange(a, b)),
{
    let t = s.subrange(a, b);
    assert forall|i: int| 0 <= i < t.len() - 1 implies !(#[trigger] t[i] == '-' && t[i + 1] == '-') by {
        assert(t[i] == s[a + i] && t[i + 1] == s[a + i + 1]);
    }
}

/// Law: a slug never holds two dashes in a row, and a title with no ASCII
/// letter or digit gets the slug `phase`.
pub proof fn law_slug_dashes_and_fallback(s: Seq<char>)
    ensures
        no_double_dash(slug_text(s)),
        (forall|i: int| 0 <= i < s.len() ==> !is_ascii_alnum(#[trigger] s[i])) ==> slug_text(s) == "phase"@,
{
    reveal_strlit("phase");
    let f = slug_fold(s).0;
    lemma_slug_fold_single_dashes(s);
    lemma_dash_start_shape(f);
    let a = trim_dash_start(f);
    lemma_dash_end_shape(a);
    let t = trim_dash_end(a);
    lemma_no_double_dash_sub(f, f.len() - a.len(), f.len() as int);
    lemma_no_double_dash_sub(a, 0, t.len() as int);
    if t.len() > 0 {
        lemma_no_double_dash_sub(t, 0, take(t, 40).len() as int);
        assert(take(t, 40) =~= t.subrange(0, take(t, 40).len() as int));
    } else {
        let p = "phase"@;
        assert forall|i: int| 0 <= i < p.len() - 1 implies !(#[trigger] p[i] == '-' && p[i + 1] == '-') by {}
    }
    if forall|i: int| 0 <= i < s.len() ==> !is_ascii_alnum(#[trigger] s[i]) {
        lemma_slug_fold_of_no_alnum(s);
    }
}

proof fn lemma_dash_start_skip(s: Seq<char>, i: int)
    requires
        0 <= i <= s.len(),
        forall|k: int| 0 <= k < i ==> #[trigger] s[k] == '-',
    ensures
        trim_dash_start(s) == trim_dash_start(s.subrange(i, s.len() as int)),
    decreases i,
{
    if i > 0 {
        lemma_dash_start_skip(s, i - 1);
        let t = s.subrange(i - 1, s.len() as int);
        assert(t.drop_first() =~= s.subrange(i, s.len() as int));
        assert(t[0] == s[i - 1]);
    } else {
        assert(s.subrange(0, s.len() as int) =~= s);
    }
}

proof fn lemma_dash_end_skip(s: Seq<char>, j: int)
    requires
        0 <= j <= s.len(),
        forall|k: int| j <= k < s.len() ==> #[trigger] s[k] == '-',
    ensures
        trim_dash_end(s) == trim_dash_end(s.subrange(0, j)),
    decreases s.len() - j,
{
    if j < s.len() {
        lemma_dash_end_skip(s, j + 1);
        let t = s.subrange(0, j + 1);
        assert(t.drop_last() =~= s.subrange(0, j));
        assert(t.last() == s[j]);
    } else {
        assert(s.subrange(0, s.len() as int) =~= s);
    }
}

fn trim_dashes(s: &[char]) -> (r: Vec<char>)
    ensures
        r@ == trim_dash_end(trim_dash_start(s@)),
{
    let mut lo: usize = 0;
    while lo < s.len() && s[lo] == '-'
        invariant
            lo <= s.len(),
            forall|k: int| 0 <= k < lo ==> #[trigger] s@[k] == '-',
        decreases s.len() - lo,
    {
        lo = lo + 1;
    }
    proof {
        lemma_dash_start_skip(s@, lo as int);
    }
    let ghost t = s@.subrange(lo as int, s.len() as int);
    if lo == s.len() {
        assert(t.len() == 0);
        return Vec::new();
    }
    assert(trim_dash_start(t) == t) by {
        assert(t[0] != '-');
    }
    let mut hi: usize = s.len();
    while hi > lo && s[hi - 1] == '-'
        invariant
            lo < s.len(),
            lo <= hi <= s.len(),
            s@[lo as int] != '-',
            forall|k: int| hi <= k < s.len() ==> #[trigger] s@[k] == '-',
        decreases hi,
    {
        hi = hi - 1;
    }
    proof {
        lemma_dash_end_skip(t, hi - lo);
        assert(t.subrange(0, hi - lo) =~= s@.subrange(lo as int, hi as int));
        let u = s@.subrange(lo as int, hi as int);
        assert(u.len() > 0 && u.last() != '-');
    }
    crate::text::slice_chars(s, lo, hi)
}

/// The slug of a phase title, the stable part of its marker.
pub fn slug(s: &str) -> (r: String)
    ensures
        r@ == slug_text(s@),
{
    let c = chars_of(s);
    let mut out: Vec<char> = Vec::new();
    let mut prev_dash = false;
    let mut i: usize = 0;
    while i < c.len()
        invariant
            i <= c@.len(),
            c@ == s@,
            (out@, prev_dash) == slug_fold(c@.subrange(0, i as int)),
        decreases c@.len() - i,
    {
        let ch = c[i];
        assert(c@.subrange(0, i + 1).drop_last() =~= c@.subrange(0, i as int));
        if is_ascii_alnum_char(ch) {
            out.push(ascii_lower_char(ch));
            prev_dash = false;
        } else if out.len() > 0 && !prev_dash {
            out.push('-');
            prev_dash = true;
        }
        i = i + 1;
    }
    assert(c@.subrange(0, c@.len() as int) =~= c@);
    let t = trim_dashes(&out);
    if t.len() == 0 {
        "phase".to_owned()
    } else {
        let r = take_chars(&t, 40);
        string_of(&r)
    }
}

/// A blank text reads as nothing.
pub open spec fn opt_text(s: Seq<char>) -> Option<Seq<char>> {
    if all_ws(s) {
        None
    } else {
        Some(s)
    }
}

/// `None` for a blank text, the text itself otherwise.
pub fn opt<'a>(s: &'a str) -> (r: Option<&'a str>)
    ensures
        r == (if all_ws(s@) {
            None
        } else {
            Some(s)
        }),
{
    let c = chars_of(s);
    if is_blank(&c) {
        None
    } else {
        Some(s)
    }
}

fn opt_string(s: &String) -> (r: Option<String>)
    ensures
        view_opt(r) == opt_text(s@),
{
    match opt(s.as_str()) {
        Some(t) => Some(t.to_owned()),
        None => None,
    }
}

/// The marker a phase is saved under: its title's slug, with no position,
/// so that it survives reordering.
pub open spec fn marker_of(title: Seq<char>) -> Seq<char> {
    "phase-"@ + slug_text(title)
}

pub fn phase_marker(title: &str) -> (r: String)
    ensures
        r@ == marker_of(title@),
{
    let mut out: Vec<char> = Vec::new();
    push_str(&mut out, "phase-");
    let sl = slug(title);
    push_str(&mut out, sl.as_str());
    string_of(&out)
}

#[derive(Debug)]
pub struct TaskRow {
    pub idx: usize,
    pub title: String,
    pub body: Option<String>,
    pub verification: Option<String>,
    pub status: String,
}

#[derive(Debug)]
pub struct PhaseRow {
    pub idx: usize,
    pub title: String,
    pub goal: Option<String>,
    pub marker: String,
    pub status: String,
    pub tasks: Vec<TaskRow>,
}

pub open spec fn task_row_is(r: TaskRow, j: int, t: GenTask) -> bool {
    &&& r.idx == j
    &&& r.title@ == t.title@
    &&& view_opt(r.body) == opt_text(t.body@)
    &&& view_opt(r.verification) == opt_text(t.verification@)
    &&& r.status@ == "not_started"@
}

pub open spec fn phase_row_is(r: PhaseRow, i: int, p: GenPhase) -> bool {
    &&& r.idx == i
    &&& r.title@ == p.title@
    &&& view_opt(r.goal) == opt_text(p.goal@)
    &&& r.marker@ == marker_of(p.title@)
    &&& r.status@ == "not_started"@
    &&& r.tasks@.len() == p.tasks@.len()
    &&& forall|j: int| 0 <= j < r.tasks@.len() ==> #[trigger] task_row_is(r.tasks@[j], j, p.tasks@[j])
}

fn phase_row(i: usize, p: &GenPhase) -> (r: PhaseRow)
    ensures
        phase_row_is(r, i as int, *p),
{
    let mut tasks: Vec<TaskRow> = Vec::new();
    let mut j: usize = 0;
    while j < p.tasks.len()
        invariant
            j <= p.tasks@.len(),
            tasks@.len() == j,
            forall|k: int| 0 <= k < j ==> #[trigger] task_row_is(tasks@[k], k, p.tasks@[k]),
        decreases p.tasks@.len() - j,
    {
        let t = &p.tasks[j];
        tasks.push(TaskRow {
            idx: j,
            title: t.title.clone(),
            body: opt_string(&t.body),
            verification: opt_string(&t.verification),
            status: "not_started".to_owned(),
        });
        j = j + 1;
    }
    PhaseRow {
        idx: i,
        title: p.title.clone(),
        goal: opt_string(&p.goal),
        marker: phase_marker(p.title.as_str()),
        status: "not_started".to_owned(),
        tasks,
    }
}

/// The phase and task rows of a plan, in order; a fresh phase or task has
/// not been started.
pub fn phase_rows(plan: &GeneratedPlan) -> (r: Vec<PhaseRow>)
    ensures
        r@.len() == plan.phases@.len(),
        forall|i: int| 0 <= i < r@.len() ==> #[trigger] phase_row_is(r@[i], i, plan.phases@[i]),
{
    let mut rows: Vec<PhaseRow> = Vec::new();
    let mut i: usize = 0;
    while i < plan.phases.len()
        invariant
            i <= plan.phases@.len(),
            rows@.len() == i,
            forall|k: int| 0 <= k < i ==> #[trigger] phase_row_is(rows@[k], k, plan.phases@[k]),
        decreases plan.phases@.len() - i,
    {
        rows.push(phase_row(i, &plan.phases[i]));
        i = i + 1;
    }
    rows
}

#[derive(Debug)]
pub struct DecisionRow {
    pub topic: String,
    pub choice: String,
    pub rationale: Option<String>,
    pub alternatives: Option<String>,
    pub consequences: Option<String>,
}

/// The row a decision is recorded as: its topic trimmed, blank texts as
/// nothing; a decision with a blank topic is not recorded.
pub fn decision_row(d: &GenDecision) -> (r: Option<DecisionRow>)
    ensures
        r is None <==> all_ws(d.topic@),
        r matches Some(row) ==> {
            &&& row.topic@ == trim(d.topic@)
            &&& row.choice@ == d.choice@
            &&& view_opt(row.rationale) == opt_text(d.rationale@)
            &&& view_opt(row.alternatives) == opt_text(d.alternatives@)
            &&& view_opt(row.consequences) == opt_text(d.consequences@)
        },
{
    let t = chars_of(d.topic.as_str());
    if is_blank(&t) {
        return None;
    }
    let topic = trimmed(&t);
    Some(DecisionRow {
        topic: string_of(&topic),
        choice: d.choice.clone(),
        rationale: opt_string(&d.rationale),
        alternatives: opt_string(&d.alternatives),
        consequences: opt_string(&d.consequences),
    })
}

/// What saving does with a decision, given the project's record of its topic.
#[derive(Debug)]
pub enum DecisionAction {
    /// Refresh the active record with this id in place.
    Refresh(i64),
    /// The topic was superseded by the user: leave it so.
    Keep,
    /// A new topic: record it.
    Insert,
}

pub fn decision_action(active: Option<i64>, recorded: bool) -> (r: DecisionAction)
    ensures
        match active {
            Some(id) => r == DecisionAction::Refresh(id),
            None => if recorded {
                r is Keep
            } else {
                r is Insert
            },
        },
{
    match active {
        Some(id) => DecisionAction::Refresh(id),
        None => if recorded {
            DecisionAction::Keep
        } else {
            DecisionAction::Insert
        },
    }
}

/// The stack pane a choice fills, if the choice is not blank.
pub open spec fn pane_row(pane: Seq<char>, c: Option<String>) -> Seq<(Seq<char>, Seq<char>)> {
    match c {
        Some(c) => if all_ws(c@) {
            Seq::empty()
        } else {
            seq![(pane, trim(c@))]
        },
        None => Seq::empty(),
    }
}

/// The stack selections a plan records, in pane order.
pub open spec fn stack_rows_of(s: GenStack) -> Seq<(Seq<char>, Seq<char>)> {
    pane_row("frontend"@, s.frontend) + pane_row("backend"@, s.backend) + pane_row("database"@, s.database)
        + pane_row("deployment"@, s.deployment) + pane_row("pipes"@, s.pipes)
}

pub open spec fn pairs_view(v: Seq<(String, String)>) -> Seq<(Seq<char>, Seq<char>)> {
    v.map_values(|p: (String, String)| (p.0@, p.1@))
}

fn push_pane(rows: &mut Vec<(String, String)>, pane: &str, c: &Option<String>)
    ensures
        pairs_view(final(rows)@) == pairs_view(old(rows)@) + pane_row(pane@, *c),
{
    match c {
        Some(c) => {
            let v = chars_of(c.as_str());
            if !is_blank(&v) {
                let t = trimmed(&v);
                rows.push((pane.to_owned(), string_of(&t)));
                assert(pairs_view(rows@) =~= pairs_view(old(rows)@) + pane_row(pane@, Some(*c)));
            } else {
                assert(pairs_view(rows@) =~= pairs_view(old(rows)@) + pane_row(pane@, Some(*c)));
            }
        },
        None => {
            assert(pairs_view(rows@) =~= pairs_view(old(rows)@) + pane_row(pane@, None));
        },
    }
}

/// The (pane, choice) selections to upsert for a plan's stack.
pub fn stack_rows(s: &GenStack) -> (r: Vec<(String, String)>)
    ensures
        pairs_view(r@) == stack_rows_of(*s),
{
    let mut rows: Vec<(String, String)> = Vec::new();
    assert(pairs_view(rows@) =~= Seq::empty());
    push_pane(&mut rows, "frontend", &s.frontend);
    push_pane(&mut rows, "backend", &s.backend);
    push_pane(&mut rows, "database", &s.database);
    push_pane(&mut rows, "deployment", &s.deployment);
    push_pane(&mut rows, "pipes", &s.pipes);
    assert(Seq::<(Seq<char>, Seq<char>)>::empty() + pane_row("frontend"@, s.frontend) =~= pane_row("frontend"@, s.frontend));
    rows
}

// ---------------------------------------------------------------------------
// The kickoff request
// ---------------------------------------------------------------------------

/// The user message that seeds a blank project's first plan.
pub open spec fn kickoff_text(description: Seq<char>) -> Seq<char> {
    "Here is what I'm building, in my own words:\n\n<description>\n"@ + trim(description)
        + "\n</description>\n\nProduce the plan JSON per your instructions, based ONLY on this description. Phase 1 should get a brand-new project to a running, verifiable starting point. Make the smallest reasonable assumptions where I was vague, label them, and record them in `notes`. Emit only the JSON object."@
}

/// Law: whitespace around the description does not change the request.
pub proof fn law_kickoff_ignores_surrounding_whitespace(description: Seq<char>)
    ensures
        kickoff_text(trim(description)) == kickoff_text(description),
{
    crate::text::lemma_trim_idempotent(description);
}

pub fn kickoff_user(description: &str) -> (r: String)
    ensures
        r@ == kickoff_text(description@),
{
    let mut out: Vec<char> = Vec::new();
    push_str(&mut out, "Here is what I'm building, in my own words:\n\n<description>\n");
    let d = chars_of(description);
    let t = trimmed(&d);
    push_all(&mut out, &t);
    push_str(
        &mut out,
        "\n</description>\n\nProduce the plan JSON per your instructions, based ONLY on this description. Phase 1 should get a brand-new project to a running, verifiable starting point. Make the smallest reasonable assumptions where I was vague, label them, and record them in `notes`. Emit only the JSON object.",
    );
    string_of(&out)
}


// ---------------------------------------------------------------------------
// Progress events and the plan as read back
// ---------------------------------------------------------------------------

/// Streamed plan-generation progress.
#[derive(Debug)]
pub enum AnalysisEvent {
    Started { project_id: i64 },
    Tool { project_id: i64, name: String },
    Done { project_id: i64, version: i64, confidence: String, phases: usize, source: String },
    Failed { project_id: i64, detail: String },
}

/// The progress event a model event of a plan run is reported as (tool uses only).
pub fn analysis_progress(project_id: i64, ev: &crate::model::ModelEvent) -> (r: Option<AnalysisEvent>)
    ensures
        match crate::model::tool_of(*ev) {
            Some(n) => r matches Some(AnalysisEvent::Tool { project_id: p, name }) && p == project_id && name@ == n,
            None => r is None,
        },
{
    match crate::model::tool_used(ev) {
        Some(name) => Some(AnalysisEvent::Tool { project_id, name }),
        None => None,
    }
}

#[derive(Debug)]
pub struct TaskView {
    pub id: i64,
    pub idx: i64,
    pub title: String,
    pub body_md: Option<String>,
    pub verification: Option<String>,
    pub status: String,
}

#[derive(Debug)]
pub struct PhaseView {
    pub id: i64,
    pub idx: i64,
    pub title: String,
    pub goal: Option<String>,
    pub status: String,
    pub tasks: Vec<TaskView>,
}

#[derive(Debug)]
pub struct DecisionView {
    pub topic: String,
    pub choice: String,
    pub rationale: Option<String>,
}

#[derive(Debug)]
pub struct StackView {
    pub pane: String,
    pub choice: Option<String>,
}

#[derive(Debug)]
pub struct PlanView {
    pub version: i64,
    pub current_state: Option<String>,
    pub body_md: Option<String>,
    pub phases: Vec<PhaseView>,
    pub decisions: Vec<DecisionView>,
    pub stack: Vec<StackView>,
}

} // verus!
