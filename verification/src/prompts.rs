//! The model requests that plan generation and project chat send: the
//! planners' rules, the analysis and kickoff requests, the summary an update
//! starts from, and a chat turn's request.

use vstd::prelude::*;
use crate::model::{read_only_tools_spec, ModelRequest};
use crate::plan::{kickoff_text, kickoff_user, PhaseView};
use crate::text::{all_ws, chars_of, is_blank, push_all, push_str, same_text, string_of};

verus! {

/// The repo planner's rules.
pub open spec fn analysis_system() -> Seq<char> {
    "You are Review Helper's repo planner. A git repository has been cloned into your working directory. Your job: explore it, then produce a single phased build plan as ONE JSON object. You are an analyst and planner, not a builder.\n\n== HARD RULES ==\n\nREAD-ONLY. You may ONLY read and search: Read, Grep, Glob, and (rarely) WebSearch. You must NEVER write, edit, create, move, or delete any file, and never run shell commands. You are describing a plan for this repo, not modifying it. If you feel an urge to \"just fix\" something, don't — describe it as a task instead.\n\nANTI-FABRICATION. Do not invent plan content the repository does not support. A thin, honest plan beats a confident wrong one. If the repo is sparse, empty, or just a scaffold, SAY SO in `current_state` and produce a minimal, honest plan that reflects exactly what's there — not an elaborate imagined product. Never invent frameworks, features, files, or decisions you did not observe. When you infer rather than observe, phrase it as \"appears to\" / \"likely\" and lower your `confidence`. Put genuine unknowns in `notes`.\n\nINGEST EXISTING DOCS FIRST. Before planning, actively search for and fully absorb any pre-existing planning material: README(.md), PLANNING.md, ROADMAP, TODO, CONTRIBUTING, ARCHITECTURE.md, CHANGELOG, docs/, .planning/, and any *.md at the repo root. The plan you output MUST reflect and build on what these say — their goals, phases, decisions, constraints. Do NOT discard or contradict existing direction; where you diverge, say why in `notes`.\n\n== HOW TO WORK ==\n\n1. EXPLORE before you plan. List the tree (Glob), read the planning docs above, then read the key signal files: manifests/lockfiles (package.json, pyproject.toml, Cargo.toml, go.mod, requirements.txt, etc.), config (Dockerfile, CI workflows, schema/migrations, tsconfig), and entry points. Skim representative source to gauge how built-out vs. scaffolded it is.\n\n2. SYNTHESIZE honestly. Summarize what the repo IS today (current_state), then lay out a phased plan to move it forward from where it actually is. Small phases — each a coherent, shippable increment with a clear goal. Every task carries a concrete `verification` (a command, a test, an observable behavior). Order phases so each builds on the last.\n\n3. STACK. Report the stack the repo already uses; recommend one only where a choice is genuinely needed. Use null for any slot that doesn't apply.\n\n4. DECISIONS. Record notable decisions already made in the repo (with rationale as you read it) and ones the plan forces, with realistic alternatives and consequences. Empty array if there are none — do not manufacture them.\n\n== OUTPUT ==\n\nEmit ONLY the JSON object — nothing before it, nothing after it. No markdown, no ``` fences, no preamble. The first character of your output must be `{` and the last `}`. It must be valid, parseable JSON adhering exactly to this shape:\n\n{\n  \"current_state\": string,   // honest summary of what the repo is today\n  \"body_md\": string,         // markdown overview of the plan's arc (markdown allowed here)\n  \"confidence\": string,      // \"high\" | \"medium\" | \"low\"\n  \"notes\": string,           // assumptions, inferences vs observations, unknowns (\"\" if none)\n  \"phases\": [ { \"title\": string, \"goal\": string,\n                \"tasks\": [ { \"title\": string, \"body\": string, \"verification\": string } ] } ],\n  \"decisions\": [ { \"topic\": string, \"choice\": string, \"rationale\": string,\n                   \"alternatives\": string, \"consequences\": string } ],\n  \"stack\": { \"frontend\": string|null, \"backend\": string|null, \"database\": string|null,\n             \"deployment\": string|null, \"pipes\": string|null }\n}\n\nEvery listed key must be present (use \"\" or [] rather than omitting). This output is parsed deterministically by a program; stray text breaks it."@
}

fn analysis_system_str() -> (r: &'static str)
    ensures
        r@ == analysis_system(),
{
    "You are Review Helper's repo planner. A git repository has been cloned into your working directory. Your job: explore it, then produce a single phased build plan as ONE JSON object. You are an analyst and planner, not a builder.\n\n== HARD RULES ==\n\nREAD-ONLY. You may ONLY read and search: Read, Grep, Glob, and (rarely) WebSearch. You must NEVER write, edit, create, move, or delete any file, and never run shell commands. You are describing a plan for this repo, not modifying it. If you feel an urge to \"just fix\" something, don't — describe it as a task instead.\n\nANTI-FABRICATION. Do not invent plan content the repository does not support. A thin, honest plan beats a confident wrong one. If the repo is sparse, empty, or just a scaffold, SAY SO in `current_state` and produce a minimal, honest plan that reflects exactly what's there — not an elaborate imagined product. Never invent frameworks, features, files, or decisions you did not observe. When you infer rather than observe, phrase it as \"appears to\" / \"likely\" and lower your `confidence`. Put genuine unknowns in `notes`.\n\nINGEST EXISTING DOCS FIRST. Before planning, actively search for and fully absorb any pre-existing planning material: README(.md), PLANNING.md, ROADMAP, TODO, CONTRIBUTING, ARCHITECTURE.md, CHANGELOG, docs/, .planning/, and any *.md at the repo root. The plan you output MUST reflect and build on what these say — their goals, phases, decisions, constraints. Do NOT discard or contradict existing direction; where you diverge, say why in `notes`.\n\n== HOW TO WORK ==\n\n1. EXPLORE before you plan. List the tree (Glob), read the planning docs above, then read the key signal files: manifests/lockfiles (package.json, pyproject.toml, Cargo.toml, go.mod, requirements.txt, etc.), config (Dockerfile, CI workflows, schema/migrations, tsconfig), and entry points. Skim representative source to gauge how built-out vs. scaffolded it is.\n\n2. SYNTHESIZE honestly. Summarize what the repo IS today (current_state), then lay out a phased plan to move it forward from where it actually is. Small phases — each a coherent, shippable increment with a clear goal. Every task carries a concrete `verification` (a command, a test, an observable behavior). Order phases so each builds on the last.\n\n3. STACK. Report the stack the repo already uses; recommend one only where a choice is genuinely needed. Use null for any slot that doesn't apply.\n\n4. DECISIONS. Record notable decisions already made in the repo (with rationale as you read it) and ones the plan forces, with realistic alternatives and consequences. Empty array if there are none — do not manufacture them.\n\n== OUTPUT ==\n\nEmit ONLY the JSON object — nothing before it, nothing after it. No markdown, no ``` fences, no preamble. The first character of your output must be `{` and the last `}`. It must be valid, parseable JSON adhering exactly to this shape:\n\n{\n  \"current_state\": string,   // honest summary of what the repo is today\n  \"body_md\": string,         // markdown overview of the plan's arc (markdown allowed here)\n  \"confidence\": string,      // \"high\" | \"medium\" | \"low\"\n  \"notes\": string,           // assumptions, inferences vs observations, unknowns (\"\" if none)\n  \"phases\": [ { \"title\": string, \"goal\": string,\n                \"tasks\": [ { \"title\": string, \"body\": string, \"verification\": string } ] } ],\n  \"decisions\": [ { \"topic\": string, \"choice\": string, \"rationale\": string,\n                   \"alternatives\": string, \"consequences\": string } ],\n  \"stack\": { \"frontend\": string|null, \"backend\": string|null, \"database\": string|null,\n             \"deployment\": string|null, \"pipes\": string|null }\n}\n\nEvery listed key must be present (use \"\" or [] rather than omitting). This output is parsed deterministically by a program; stray text breaks it."
}

/// The analysis request's closing instruction.
pub open spec fn analysis_user() -> Seq<char> {
    "Analyze the cloned repository in your working directory and produce the plan JSON per your instructions. Explore the files first, ingest any existing planning docs, then emit only the JSON object."@
}

fn analysis_user_str() -> (r: &'static str)
    ensures
        r@ == analysis_user(),
{
    "Analyze the cloned repository in your working directory and produce the plan JSON per your instructions. Explore the files first, ingest any existing planning docs, then emit only the JSON object."
}

/// The blank-project planner's rules.
pub open spec fn kickoff_system() -> Seq<char> {
    "You are Review Helper's project planner in BLANK-PROJECT mode. There is no repository. The user has described, in free text, what they want to build. Your job: turn ONLY that description into a single phased build plan as ONE JSON object. You are a planner, not a builder.\n\n== HARD RULES ==\n\nPLAN FROM WHAT THEY SAID — NOTHING MORE. Everything in the plan must trace back to the user's description or to uncontroversial standard practice for building that kind of thing. Do NOT invent features, scope, or requirements the user did not mention. A thin, honest plan that matches their words beats an impressive plan that builds something they didn't ask for.\n\nASK NOTHING. You cannot ask questions. Where the description is ambiguous, make the smallest reasonable assumption, label it as an assumption in the relevant text, and record it in `notes`. Set `confidence` to reflect how much you had to assume — a vague one-liner means \"low\".\n\nNO BUILDING. You only produce the plan. Never write files or run commands.\n\n== HOW TO PLAN ==\n\nSmall phases — each a coherent shippable increment with a clear goal. For a brand-new project, phase 1 is almost always scaffolding/setup (repo, runtime, a \"hello world\" that runs). Every task carries a concrete `verification`. Order phases so each de-risks the next; defer anything the user only hinted at. Recommend a stack only as far as the description justifies — if the user named technologies, use exactly those; otherwise pick mainstream low-surprise defaults and note they're suggestions. Use null for slots that don't apply. Record decisions the plan forces, with honest rationale/alternatives/consequences.\n\n== OUTPUT ==\n\nEmit ONLY the JSON object — no prose before or after, no ``` fences. First character `{`, last `}`. Valid, parseable JSON, SAME schema and field names as repo-analysis mode (current_state, body_md, confidence, notes, phases[title,goal,tasks[title,body,verification]], decisions[topic,choice,rationale,alternatives,consequences], stack{frontend,backend,database,deployment,pipes}). Here `current_state` describes the STARTING POINT: a new project planned purely from the user's description (restate the described goal in a sentence or two)."@
}

fn kickoff_system_str() -> (r: &'static str)
    ensures
        r@ == kickoff_system(),
{
    "You are Review Helper's project planner in BLANK-PROJECT mode. There is no repository. The user has described, in free text, what they want to build. Your job: turn ONLY that description into a single phased build plan as ONE JSON object. You are a planner, not a builder.\n\n== HARD RULES ==\n\nPLAN FROM WHAT THEY SAID — NOTHING MORE. Everything in the plan must trace back to the user's description or to uncontroversial standard practice for building that kind of thing. Do NOT invent features, scope, or requirements the user did not mention. A thin, honest plan that matches their words beats an impressive plan that builds something they didn't ask for.\n\nASK NOTHING. You cannot ask questions. Where the description is ambiguous, make the smallest reasonable assumption, label it as an assumption in the relevant text, and record it in `notes`. Set `confidence` to reflect how much you had to assume — a vague one-liner means \"low\".\n\nNO BUILDING. You only produce the plan. Never write files or run commands.\n\n== HOW TO PLAN ==\n\nSmall phases — each a coherent shippable increment with a clear goal. For a brand-new project, phase 1 is almost always scaffolding/setup (repo, runtime, a \"hello world\" that runs). Every task carries a concrete `verification`. Order phases so each de-risks the next; defer anything the user only hinted at. Recommend a stack only as far as the description justifies — if the user named technologies, use exactly those; otherwise pick mainstream low-surprise defaults and note they're suggestions. Use null for slots that don't apply. Record decisions the plan forces, with honest rationale/alternatives/consequences.\n\n== OUTPUT ==\n\nEmit ONLY the JSON object — no prose before or after, no ``` fences. First character `{`, last `}`. Valid, parseable JSON, SAME schema and field names as repo-analysis mode (current_state, body_md, confidence, notes, phases[title,goal,tasks[title,body,verification]], decisions[topic,choice,rationale,alternatives,consequences], stack{frontend,backend,database,deployment,pipes}). Here `current_state` describes the STARTING POINT: a new project planned purely from the user's description (restate the described goal in a sentence or two)."
}

/// The project companion's rules.
pub open spec fn chat_system() -> Seq<char> {
    "You are Review Helper's project companion. You help the builder think through what they're building. Be concrete, honest, and grounded in the PROJECT CONTEXT below and the repository in your working directory (which you may read, READ-ONLY). Never edit, write, or delete files, and never run shell commands. Answer conversationally and concisely; reference the real plan, decisions, stack, and answered questions when relevant."@
}

fn chat_system_str() -> (r: &'static str)
    ensures
        r@ == chat_system(),
{
    "You are Review Helper's project companion. You help the builder think through what they're building. Be concrete, honest, and grounded in the PROJECT CONTEXT below and the repository in your working directory (which you may read, READ-ONLY). Never edit, write, or delete files, and never run shell commands. Answer conversationally and concisely; reference the real plan, decisions, stack, and answered questions when relevant."
}

/// `a`, a blank line, then `b`.
pub open spec fn para(a: Seq<char>, b: Seq<char>) -> Seq<char> {
    a + "\n\n"@ + b
}

fn para_str(a: &str, b: &str) -> (r: String)
    ensures
        r@ == para(a@, b@),
{
    let mut out: Vec<char> = Vec::new();
    push_str(&mut out, a);
    push_str(&mut out, "\n\n");
    push_str(&mut out, b);
    string_of(&out)
}

/// The analysis prompt: the clone's planning docs (when any were found)
/// before the closing instruction.
pub open spec fn analysis_prompt(docs: Seq<char>) -> Seq<char> {
    if docs.len() == 0 {
        analysis_user()
    } else {
        para(docs, analysis_user())
    }
}

/// The request that analyzes a clone (read-only, run inside it), grounded in
/// the project's context.
pub fn analysis_request(docs: &str, context: &str, clone_path: &str) -> (r: ModelRequest)
    ensures
        r.prompt@ == analysis_prompt(docs@),
        r.system_append matches Some(s) && s@ == para(analysis_system(), context@),
        r.cwd matches Some(c) && c@ == clone_path@,
        r.allowed_tools@ == read_only_tools_spec(),
        r.session_id is None,
        r.model is None,
{
    let user = if chars_of(docs).len() == 0 {
        string_of(&chars_of(analysis_user_str()))
    } else {
        para_str(docs, analysis_user_str())
    };
    let mut req = ModelRequest::planning(user.as_str());
    req.system_append = Some(para_str(analysis_system_str(), context));
    req.cwd = Some(string_of(&chars_of(clone_path)));
    req
}

/// The request that plans a blank project from its description; a rebuild
/// also hands the planner the project's context.
pub fn kickoff_request(description: &str, context: Option<&str>) -> (r: ModelRequest)
    ensures
        r.prompt@ == kickoff_text(description@),
        r.system_append matches Some(s) && s@ == match context {
            Some(c) => para(kickoff_system(), c@),
            None => kickoff_system(),
        },
        r.cwd is None,
        r.allowed_tools@ == read_only_tools_spec(),
        r.session_id is None,
        r.model is None,
{
    let user = kickoff_user(description);
    let mut req = ModelRequest::planning(user.as_str());
    req.system_append = Some(
        match context {
            Some(c) => para_str(kickoff_system_str(), c),
            None => string_of(&chars_of(kickoff_system_str())),
        },
    );
    req
}

pub open spec fn opt_text_or_empty(o: Option<String>) -> Seq<char> {
    match o {
        Some(s) => s@,
        None => Seq::empty(),
    }
}

/// One phase of the update summary: "- [status] title: goal".
pub open spec fn phase_line(p: PhaseView) -> Seq<char> {
    "- ["@ + p.status@ + "] "@ + p.title@ + ": "@ + opt_text_or_empty(p.goal) + "\n"@
}

pub open spec fn phase_lines(ps: Seq<PhaseView>) -> Seq<char>
    decreases ps.len(),
{
    if ps.len() == 0 {
        Seq::empty()
    } else {
        phase_lines(ps.drop_last()) + phase_line(ps.last())
    }
}

/// The summary of the current plan an update starts from: its state when
/// recorded, then every phase with its status.
pub open spec fn update_summary_text(current_state: Option<String>, phases: Seq<PhaseView>) -> Seq<char> {
    (match current_state {
        Some(c) => if all_ws(c@) {
            Seq::empty()
        } else {
            "Current state: "@ + c@ + "\n\n"@
        },
        None => Seq::empty(),
    }) + "Phases:\n"@ + phase_lines(phases)
}

pub fn update_summary(current_state: &Option<String>, phases: &Vec<PhaseView>) -> (r: String)
    ensures
        r@ == update_summary_text(*current_state, phases@),
{
    let mut out: Vec<char> = Vec::new();
    if let Some(c) = current_state {
        if !is_blank(&chars_of(c.as_str())) {
            push_str(&mut out, "Current state: ");
            push_str(&mut out, c.as_str());
            push_str(&mut out, "\n\n");
        }
    }
    push_str(&mut out, "Phases:\n");
    let ghost head = out@;
    let mut i: usize = 0;
    while i < phases.len()
        invariant
            i <= phases@.len(),
            out@ == head + phase_lines(phases@.subrange(0, i as int)),
        decreases phases@.len() - i,
    {
        let p = &phases[i];
        push_str(&mut out, "- [");
        push_str(&mut out, p.status.as_str());
        push_str(&mut out, "] ");
        push_str(&mut out, p.title.as_str());
        push_str(&mut out, ": ");
        match &p.goal {
            Some(g) => push_str(&mut out, g.as_str()),
            None => {},
        }
        push_str(&mut out, "\n");
        assert(phases@.subrange(0, i + 1).drop_last() =~= phases@.subrange(0, i as int));
        i = i + 1;
    }
    assert(phases@.subrange(0, phases@.len() as int) =~= phases@);
    string_of(&out)
}

/// A pending feature idea as an update lists it: its title, and its detail
/// after a dash when there is one.
pub open spec fn feature_line_text(title: Seq<char>, detail: Option<String>) -> Seq<char> {
    match detail {
        Some(d) => if all_ws(d@) {
            title
        } else {
            title + " — "@ + d@
        },
        None => title,
    }
}

pub fn feature_line(title: &str, detail: &Option<String>) -> (r: String)
    ensures
        r@ == feature_line_text(title@, *detail),
{
    let mut out: Vec<char> = Vec::new();
    push_str(&mut out, title);
    if let Some(d) = detail {
        if !is_blank(&chars_of(d.as_str())) {
            push_str(&mut out, " — ");
            push_str(&mut out, d.as_str());
        }
    }
    string_of(&out)
}

/// The feature ideas an update weaves in: those still in the inbox or triaged.
pub fn feature_pending(status: &str) -> (r: bool)
    ensures
        r == (status@ == "inbox"@ || status@ == "triaged"@),
{
    let c = chars_of(status);
    same_text(&c, "inbox") || same_text(&c, "triaged")
}

/// The system prompt of a chat turn: the companion's rules and the project's
/// context, then the chat history when there is any.
pub open spec fn chat_system_text(context: Seq<char>, history: Seq<char>) -> Seq<char> {
    if all_ws(history) {
        para(chat_system(), context)
    } else {
        para(para(chat_system(), context), history)
    }
}

/// A chat turn's request, read-only in the project's clone when it has one.
pub fn chat_request(message: &str, context: &str, history: &str, clone_path: Option<String>) -> (r: ModelRequest)
    ensures
        r.prompt@ == message@,
        r.system_append matches Some(s) && s@ == chat_system_text(context@, history@),
        r.cwd == clone_path,
        r.allowed_tools@ == read_only_tools_spec(),
        r.session_id is None,
        r.model is None,
{
    let base = para_str(chat_system_str(), context);
    let sys = if is_blank(&chars_of(history)) {
        base
    } else {
        para_str(base.as_str(), history)
    };
    let mut req = ModelRequest::planning(message);
    req.system_append = Some(sys);
    req.cwd = clone_path;
    req
}

/// The plan updater's rules.
pub open spec fn merge_system() -> Seq<char> {
    "You are Review Helper's plan updater. You receive the project's current plan, newly answered questions and new feature ideas. Produce the UPDATED plan as ONE JSON object in the same schema as before (current_state, body_md, confidence, notes, phases[title,goal,tasks[title,body,verification]], decisions[...], stack{...}). Keep every existing phase title that still applies exactly as it is, so progress on it carries over; weave the new material in as new phases or tasks; never drop a completed phase without saying why in `notes`. Read-only: never write files or run commands. Emit only the JSON object."@
}

fn merge_system_str() -> (r: &'static str)
    ensures
        r@ == merge_system(),
{
    "You are Review Helper's plan updater. You receive the project's current plan, newly answered questions and new feature ideas. Produce the UPDATED plan as ONE JSON object in the same schema as before (current_state, body_md, confidence, notes, phases[title,goal,tasks[title,body,verification]], decisions[...], stack{...}). Keep every existing phase title that still applies exactly as it is, so progress on it carries over; weave the new material in as new phases or tasks; never drop a completed phase without saying why in `notes`. Read-only: never write files or run commands. Emit only the JSON object."
}

/// One answered question as an update lists it.
pub open spec fn answer_item(qa: (String, String)) -> Seq<char> {
    "- Q: "@ + qa.0@ + "\n  A: "@ + qa.1@ + "\n"@
}

pub open spec fn answer_items(qs: Seq<(String, String)>) -> Seq<char>
    decreases qs.len(),
{
    if qs.len() == 0 {
        Seq::empty()
    } else {
        answer_items(qs.drop_last()) + answer_item(qs.last())
    }
}

pub open spec fn idea_items(fs: Seq<String>) -> Seq<char>
    decreases fs.len(),
{
    if fs.len() == 0 {
        Seq::empty()
    } else {
        idea_items(fs.drop_last()) + "- "@ + fs.last()@ + "\n"@
    }
}

/// The update prompt: the current plan's summary, then the answered
/// questions and the new ideas when there are any.
pub open spec fn merge_user_text(summary: Seq<char>, answers: Seq<(String, String)>, ideas: Seq<String>) -> Seq<
    char,
> {
    "## Current plan\n"@ + summary + "\n"@ + (if answers.len() == 0 {
        Seq::empty()
    } else {
        "\n## Answered questions\n"@ + answer_items(answers)
    }) + (if ideas.len() == 0 {
        Seq::empty()
    } else {
        "\n## New feature ideas\n"@ + idea_items(ideas)
    }) + "\nProduce the updated plan JSON per your instructions. Emit only the JSON object."@
}

pub fn merge_user(summary: &str, answers: &Vec<(String, String)>, ideas: &Vec<String>) -> (r: String)
    ensures
        r@ == merge_user_text(summary@, answers@, ideas@),
{
    let mut out: Vec<char> = Vec::new();
    push_str(&mut out, "## Current plan\n");
    push_str(&mut out, summary);
    push_str(&mut out, "\n");
    let ghost head = out@;
    if answers.len() > 0 {
        push_str(&mut out, "\n## Answered questions\n");
        let ghost h = out@;
        let mut i: usize = 0;
        while i < answers.len()
            invariant
                i <= answers@.len(),
                out@ == h + answer_items(answers@.subrange(0, i as int)),
            decreases answers@.len() - i,
        {
            push_str(&mut out, "- Q: ");
            push_str(&mut out, answers[i].0.as_str());
            push_str(&mut out, "\n  A: ");
            push_str(&mut out, answers[i].1.as_str());
            push_str(&mut out, "\n");
            assert(answers@.subrange(0, i + 1).drop_last() =~= answers@.subrange(0, i as int));
            i = i + 1;
        }
        assert(answers@.subrange(0, answers@.len() as int) =~= answers@);
    }
    let ghost mid = out@;
    assert(mid == head + (if answers@.len() == 0 {
        Seq::<char>::empty()
    } else {
        "\n## Answered questions\n"@ + answer_items(answers@)
    }));
    if ideas.len() > 0 {
        push_str(&mut out, "\n## New feature ideas\n");
        let ghost h = out@;
        let mut i: usize = 0;
        while i < ideas.len()
            invariant
                i <= ideas@.len(),
                out@ == h + idea_items(ideas@.subrange(0, i as int)),
            decreases ideas@.len() - i,
        {
            push_str(&mut out, "- ");
            push_str(&mut out, ideas[i].as_str());
            push_str(&mut out, "\n");
            assert(ideas@.subrange(0, i + 1).drop_last() =~= ideas@.subrange(0, i as int));
            i = i + 1;
        }
        assert(ideas@.subrange(0, ideas@.len() as int) =~= ideas@);
    }
    push_str(&mut out, "\nProduce the updated plan JSON per your instructions. Emit only the JSON object.");
    assert(out@ =~= merge_user_text(summary@, answers@, ideas@));
    string_of(&out)
}

/// The request that updates a plan with answered questions and pending ideas,
/// grounded in the project's context; refused when there is nothing new.
pub fn merge_request(summary: &str, answers: &Vec<(String, String)>, ideas: &Vec<String>, context: &str) -> (r:
    Result<ModelRequest, String>)
    ensures
        r is Err <==> (answers@.len() == 0 && ideas@.len() == 0),
        match r {
            Err(e) => e@
                == "No new ideas or answers to incorporate — add to the inbox or answer questions first."@,
            Ok(req) => {
                &&& req.prompt@ == merge_user_text(summary@, answers@, ideas@)
                &&& req.system_append matches Some(s) && s@ == para(merge_system(), context@)
                &&& req.allowed_tools@ == read_only_tools_spec()
                &&& req.cwd is None
                &&& req.session_id is None
                &&& req.model is None
            },
        },
{
    if answers.len() == 0 && ideas.len() == 0 {
        return Err(
            string_of(
                &chars_of(
                    "No new ideas or answers to incorporate — add to the inbox or answer questions first.",
                ),
            ),
        );
    }
    let user = merge_user(summary, answers, ideas);
    let mut req = ModelRequest::planning(user.as_str());
    req.system_append = Some(para_str(merge_system_str(), context));
    Ok(req)
}

} // verus!
