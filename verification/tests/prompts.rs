use review_helper::plan::{PhaseView, TaskView};
use review_helper::prompts::{
    analysis_request, chat_request, feature_line, feature_pending, kickoff_request, merge_request, merge_user, update_summary,
};

#[test]
fn analysis_puts_found_docs_before_the_instruction_and_runs_in_the_clone() {
    let bare = analysis_request("", "CTX", "/clones/1");
    assert!(bare.prompt.starts_with("Analyze the cloned repository"));
    assert_eq!(bare.cwd.as_deref(), Some("/clones/1"));
    let sys = bare.system_append.unwrap();
    assert!(sys.starts_with("You are Review Helper's repo planner."));
    assert!(sys.ends_with("\n\nCTX"));
    let with_docs = analysis_request("## Existing planning material", "CTX", "/c");
    assert!(with_docs.prompt.starts_with("## Existing planning material\n\nAnalyze the cloned repository"));
}

#[test]
fn kickoff_has_no_repo_and_a_rebuild_carries_the_context() {
    let k = kickoff_request("  a todo app ", None);
    assert!(k.cwd.is_none());
    assert!(k.prompt.contains("<description>\na todo app\n</description>"));
    let sys = k.system_append.unwrap();
    assert!(sys.starts_with("You are Review Helper's project planner in BLANK-PROJECT mode."));
    let r = kickoff_request("a todo app", Some("CTX"));
    assert_eq!(r.system_append.unwrap(), format!("{sys}\n\nCTX"));
}

fn phase(title: &str, status: &str, goal: Option<&str>) -> PhaseView {
    PhaseView {
        id: 1,
        idx: 0,
        title: title.into(),
        goal: goal.map(String::from),
        status: status.into(),
        tasks: Vec::<TaskView>::new(),
    }
}

#[test]
fn update_summary_lists_state_and_phase_statuses() {
    let s = update_summary(&Some("Early.".into()), &vec![phase("Setup", "done", Some("Runs")), phase("Ship", "not_started", None)]);
    assert_eq!(s, "Current state: Early.\n\nPhases:\n- [done] Setup: Runs\n- [not_started] Ship: \n");
    assert_eq!(update_summary(&Some("  ".into()), &vec![]), "Phases:\n");
}

#[test]
fn pending_ideas_are_listed_with_their_detail() {
    assert_eq!(feature_line("Dark mode", &Some("for night".into())), "Dark mode — for night");
    assert_eq!(feature_line("Dark mode", &Some(" ".into())), "Dark mode");
    assert!(feature_pending("inbox") && feature_pending("triaged"));
    assert!(!feature_pending("in_plan"));
}

#[test]
fn chat_turns_carry_history_only_when_there_is_some() {
    let r = chat_request("hi", "CTX", "  ", Some("/c".into()));
    let base = r.system_append.unwrap();
    assert!(base.ends_with("\n\nCTX"));
    assert_eq!(r.prompt, "hi");
    assert_eq!(r.cwd.as_deref(), Some("/c"));
    let h = chat_request("hi", "CTX", "## Chat history", None);
    assert_eq!(h.system_append.unwrap(), format!("{base}\n\n## Chat history"));
}

#[test]
fn merge_lists_answers_and_ideas_after_the_summary() {
    let answers = vec![("Who uses it?".to_string(), "Teachers.".to_string())];
    let ideas = vec!["Dark mode".to_string(), "Export — as CSV".to_string()];
    assert_eq!(
        merge_user("Phases:\n", &answers, &ideas),
        "## Current plan\nPhases:\n\n\n## Answered questions\n- Q: Who uses it?\n  A: Teachers.\n\n## New feature ideas\n- Dark mode\n- Export — as CSV\n\nProduce the updated plan JSON per your instructions. Emit only the JSON object."
    );
    assert_eq!(
        merge_user("S", &vec![], &vec!["x".to_string()]),
        "## Current plan\nS\n\n## New feature ideas\n- x\n\nProduce the updated plan JSON per your instructions. Emit only the JSON object."
    );
    let req = merge_request("S", &answers, &vec![], "CTX").unwrap();
    assert!(req.system_append.as_deref().unwrap().starts_with("You are Review Helper's plan updater."));
    assert!(req.system_append.as_deref().unwrap().ends_with("\n\nCTX"));
    assert!(req.cwd.is_none());
}

#[test]
fn merge_with_nothing_new_is_refused() {
    assert_eq!(
        merge_request("S", &vec![], &vec![], "CTX").unwrap_err(),
        "No new ideas or answers to incorporate — add to the inbox or answer questions first."
    );
}
