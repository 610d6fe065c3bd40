//! Assessment: the request that scores a project from the deterministic scan
//! facts, the checks the model's assessment must pass, and the clamped
//! overall scores kept from it.

use vstd::prelude::*;
use crate::json::{get, get_field, get_i64, i64_of, is_arr, is_obj, Json};
use crate::model::{read_only_tools_spec, ModelRequest};
use crate::text::{chars_of, push_all, push_str, string_of, trim, trimmed};

verus! {

/// The user message of an assessment: the scan facts, then the instruction.
pub open spec fn assess_text(scan_facts: Seq<char>) -> Seq<char> {
    "SCAN FACTS (deterministic measurements of the repo):\n\n"@ + trim(scan_facts)
        + "\n\nExplore the repo read-only to judge what the scanner can't, then emit the assessment JSON per your instructions."@
}

/// Law: whitespace around the scan facts does not change the request.
pub proof fn law_assess_user_ignores_surrounding_whitespace(scan_facts: Seq<char>)
    ensures
        assess_text(trim(scan_facts)) == assess_text(scan_facts),
{
    crate::text::lemma_trim_idempotent(scan_facts);
}

pub fn assess_user(scan_facts: &str) -> (r: String)
    ensures
        r@ == assess_text(scan_facts@),
{
    let mut out: Vec<char> = Vec::new();
    push_str(&mut out, "SCAN FACTS (deterministic measurements of the repo):\n\n");
    push_all(&mut out, &trimmed(&chars_of(scan_facts)));
    push_str(
        &mut out,
        "\n\nExplore the repo read-only to judge what the scanner can't, then emit the assessment JSON per your instructions.",
    );
    string_of(&out)
}

pub open spec fn assess_system() -> Seq<char> {
    "You are Review Helper's assessor. You judge how well an existing project is set up — grounded in the SCAN FACTS provided (deterministic measurements) plus your own READ-ONLY exploration of the repository in your working directory. Never edit, write, move, or delete files, and never run shell commands.\n\nScore honestly on a 0–100 scale (100 = best). Every score needs a one-line reason tied to a scan number or to something you actually observed — never a vibe. A low score with a clear reason beats a generous one. Don't invent problems or strengths the repo doesn't show.\n\nSIX VIBECODING DIMENSIONS:\n- architecture: a real, intended structure (core vs shared vs disposable), concerns separated, not accreted.\n- modularity: small, single-responsibility files. The scan's files_over_300_lines flags files over 300 (hard over 500); duplicate utilities lower this.\n- context_hygiene: code scoped so an agent can work one task; presence of agent instruction files / planning docs (scan: has_agent_md, has_planning_dir).\n- security: hardcoded keys/credentials, client-side secret exposure, missing auth on data access. ANY secret_pattern_hits caps this dimension low. Weight heavily; never soften.\n- git_discipline: meaningful history, no giant untracked state (scan: git_commits).\n- workflow: a written plan the code follows; does current state match it.\n\nPRODUCTION READINESS (0–100 each): tests (scan: has_tests), error_handling, secrets (scan: secret_pattern_hits), build_ci (scan: has_ci), dependencies, docs (scan: has_readme).\n\nThen give top_fixes (the 3 highest-leverage fixes, each naming a file or pattern, not \"improve architecture\") and hygiene (cleanup items: oversized files from the scan, dead code, unused deps — empty array if clean).\n\nOUTPUT: Emit ONLY this JSON object — nothing before or after, no ``` fences. First character `{`, last `}`:\n{\n  \"dimensions\": {\n    \"architecture\": {\"score\": int, \"reason\": string},\n    \"modularity\": {\"score\": int, \"reason\": string},\n    \"context_hygiene\": {\"score\": int, \"reason\": string},\n    \"security\": {\"score\": int, \"reason\": string},\n    \"git_discipline\": {\"score\": int, \"reason\": string},\n    \"workflow\": {\"score\": int, \"reason\": string}\n  },\n  \"dimensions_overall\": int,\n  \"production\": {\n    \"tests\": {\"score\": int, \"reason\": string},\n    \"error_handling\": {\"score\": int, \"reason\": string},\n    \"secrets\": {\"score\": int, \"reason\": string},\n    \"build_ci\": {\"score\": int, \"reason\": string},\n    \"dependencies\": {\"score\": int, \"reason\": string},\n    \"docs\": {\"score\": int, \"reason\": string}\n  },\n  \"production_overall\": int,\n  \"top_fixes\": [string, string, string],\n  \"hygiene\": [string]\n}\nEvery key must be present. This is parsed deterministically; stray text breaks it."@
}

/// The assessment request: scan facts as the prompt, the assessor's rules as
/// the system prompt, run in the clone.
pub fn assess_request(scan_facts: &str, clone_path: &str) -> (r: ModelRequest)
    ensures
        r.prompt@ == assess_text(scan_facts@),
        r.system_append matches Some(s) && s@ == assess_system(),
        r.cwd matches Some(c) && c@ == clone_path@,
        r.allowed_tools@ == read_only_tools_spec(),
{
    let u = assess_user(scan_facts);
    let mut req = ModelRequest::planning(u.as_str());
    req.system_append = Some("You are Review Helper's assessor. You judge how well an existing project is set up — grounded in the SCAN FACTS provided (deterministic measurements) plus your own READ-ONLY exploration of the repository in your working directory. Never edit, write, move, or delete files, and never run shell commands.\n\nScore honestly on a 0–100 scale (100 = best). Every score needs a one-line reason tied to a scan number or to something you actually observed — never a vibe. A low score with a clear reason beats a generous one. Don't invent problems or strengths the repo doesn't show.\n\nSIX VIBECODING DIMENSIONS:\n- architecture: a real, intended structure (core vs shared vs disposable), concerns separated, not accreted.\n- modularity: small, single-responsibility files. The scan's files_over_300_lines flags files over 300 (hard over 500); duplicate utilities lower this.\n- context_hygiene: code scoped so an agent can work one task; presence of agent instruction files / planning docs (scan: has_agent_md, has_planning_dir).\n- security: hardcoded keys/credentials, client-side secret exposure, missing auth on data access. ANY secret_pattern_hits caps this dimension low. Weight heavily; never soften.\n- git_discipline: meaningful history, no giant untracked state (scan: git_commits).\n- workflow: a written plan the code follows; does current state match it.\n\nPRODUCTION READINESS (0–100 each): tests (scan: has_tests), error_handling, secrets (scan: secret_pattern_hits), build_ci (scan: has_ci), dependencies, docs (scan: has_readme).\n\nThen give top_fixes (the 3 highest-leverage fixes, each naming a file or pattern, not \"improve architecture\") and hygiene (cleanup items: oversized files from the scan, dead code, unused deps — empty array if clean).\n\nOUTPUT: Emit ONLY this JSON object — nothing before or after, no ``` fences. First character `{`, last `}`:\n{\n  \"dimensions\": {\n    \"architecture\": {\"score\": int, \"reason\": string},\n    \"modularity\": {\"score\": int, \"reason\": string},\n    \"context_hygiene\": {\"score\": int, \"reason\": string},\n    \"security\": {\"score\": int, \"reason\": string},\n    \"git_discipline\": {\"score\": int, \"reason\": string},\n    \"workflow\": {\"score\": int, \"reason\": string}\n  },\n  \"dimensions_overall\": int,\n  \"production\": {\n    \"tests\": {\"score\": int, \"reason\": string},\n    \"error_handling\": {\"score\": int, \"reason\": string},\n    \"secrets\": {\"score\": int, \"reason\": string},\n    \"build_ci\": {\"score\": int, \"reason\": string},\n    \"dependencies\": {\"score\": int, \"reason\": string},\n    \"docs\": {\"score\": int, \"reason\": string}\n  },\n  \"production_overall\": int,\n  \"top_fixes\": [string, string, string],\n  \"hygiene\": [string]\n}\nEvery key must be present. This is parsed deterministically; stray text breaks it.".to_owned());
    req.cwd = Some(clone_path.to_owned());
    req
}

/// An assessment has its four parts, of the right kinds.
pub open spec fn assessment_ok(j: Json) -> bool {
    &&& is_obj(get(j, "dimensions"@))
    &&& is_obj(get(j, "production"@))
    &&& is_arr(get(j, "top_fixes"@))
    &&& is_arr(get(j, "hygiene"@))
}

/// Check a parsed assessment.
pub fn check_assessment(j: &Json) -> (r: Result<(), String>)
    ensures
        match r {
            Ok(()) => assessment_ok(*j),
            Err(e) => !assessment_ok(*j) && e@ == "Assessment JSON missing dimensions/production/top_fixes/hygiene."@,
        },
{
    let d = match get_field(j, "dimensions") {
        Some(Json::Obj(_)) => true,
        _ => false,
    };
    let p = match get_field(j, "production") {
        Some(Json::Obj(_)) => true,
        _ => false,
    };
    let t = match get_field(j, "top_fixes") {
        Some(Json::Arr(_)) => true,
        _ => false,
    };
    let h = match get_field(j, "hygiene") {
        Some(Json::Arr(_)) => true,
        _ => false,
    };
    if d && p && t && h {
        Ok(())
    } else {
        Err("Assessment JSON missing dimensions/production/top_fixes/hygiene.".to_owned())
    }
}

/// An overall score as kept: the integer at `key` (0 when absent or not an
/// integer), clamped to 0..=100.
pub open spec fn overall_of(j: Json, key: Seq<char>) -> i64 {
    let v = match i64_of(get(j, key)) {
        Some(n) => n,
        None => 0,
    };
    if v < 0 {
        0
    } else if v > 100 {
        100
    } else {
        v
    }
}

pub fn clamp_overall(j: &Json, key: &str) -> (r: i64)
    ensures
        r == overall_of(*j, key@),
        0 <= r <= 100,
{
    let v = match get_i64(j, key) {
        Some(n) => n,
        None => 0,
    };
    if v < 0 {
        0
    } else if v > 100 {
        100
    } else {
        v
    }
}


/// Streamed assessment progress.
#[derive(Debug)]
pub enum AssessmentEvent {
    Started { project_id: i64 },
    Tool { project_id: i64, name: String },
    Done { project_id: i64, overall: i64 },
    Failed { project_id: i64, detail: String },
}

pub fn assessment_progress(project_id: i64, ev: &crate::model::ModelEvent) -> (r: Option<AssessmentEvent>)
    ensures
        match crate::model::tool_of(*ev) {
            Some(n) => r matches Some(AssessmentEvent::Tool { project_id: p, name }) && p == project_id && name@ == n,
            None => r is None,
        },
{
    match crate::model::tool_used(ev) {
        Some(name) => Some(AssessmentEvent::Tool { project_id, name }),
        None => None,
    }
}

} // verus!
