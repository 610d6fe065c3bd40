use review_helper::json::Json;
use review_helper::plan::{
    decision_action, decision_row, kickoff_user, opt, phase_marker, phase_rows, plan_from_json, plan_json_text, slug,
    stack_rows, DecisionAction, GenDecision, GenPhase, GenStack, GenTask, GeneratedPlan,
};

fn to_json(v: &serde_json::Value) -> Json {
    match v {
        serde_json::Value::Null => Json::Null,
        serde_json::Value::Bool(b) => Json::Bool(*b),
        serde_json::Value::Number(n) => Json::Num(n.to_string()),
        serde_json::Value::String(s) => Json::Str(s.clone()),
        serde_json::Value::Array(a) => Json::Arr(a.iter().map(to_json).collect()),
        serde_json::Value::Object(m) => Json::Obj(m.iter().map(|(k, v)| (k.clone(), to_json(v))).collect()),
    }
}

/// The whole reading of a model reply: find the object, parse it, decode it.
fn parse_plan(raw: &str) -> Result<GeneratedPlan, String> {
    let text = plan_json_text(raw)?;
    let value: serde_json::Value = serde_json::from_str(&text).map_err(|e| e.to_string())?;
    plan_from_json(&to_json(&value))
}

const VALID: &str = r#"{
  "current_state": "An early scaffold.",
  "body_md": "Plan body with braces { like this } in prose.",
  "confidence": "low",
  "notes": "Mostly from the README.",
  "phases": [
    {"title": "Setup", "goal": "Runnable", "tasks": [
      {"title": "Init", "body": "do it", "verification": "it runs"}
    ]}
  ],
  "decisions": [
    {"topic": "DB", "choice": "SQLite", "rationale": "simple", "alternatives": "pg", "consequences": "local only"}
  ],
  "stack": {"frontend": null, "backend": "Rust", "database": "SQLite", "deployment": null, "pipes": null}
}"#;

#[test]
fn parses_a_valid_plan_with_braces_in_strings() {
    let plan = parse_plan(VALID).unwrap();
    assert_eq!(plan.confidence, "low");
    assert_eq!(plan.phases.len(), 1);
    assert_eq!(plan.phases[0].tasks[0].verification, "it runs");
    assert_eq!(plan.decisions[0].choice, "SQLite");
    assert_eq!(plan.stack.backend.as_deref(), Some("Rust"));
    assert!(plan.stack.frontend.is_none());
    assert!(plan.body_md.contains("{ like this }"));
}

#[test]
fn extracts_from_fenced_and_prefixed_output() {
    let wrapped = format!("Here is the plan:\n```json\n{VALID}\n```\nDone.");
    let plan = parse_plan(&wrapped).unwrap();
    assert_eq!(plan.phases.len(), 1);
}

#[test]
fn rejects_missing_required_fields() {
    let bad = r#"{"current_state": "x", "phases": []}"#;
    assert!(parse_plan(bad).is_err());
}

#[test]
fn rejects_non_json() {
    assert!(parse_plan("the model refused to answer").is_err());
    assert!(parse_plan("{ unbalanced").is_err());
}

#[test]
fn a_missing_field_is_named_in_the_error() {
    let bad = r#"{"current_state": "x", "body_md": "b", "confidence": "low", "notes": "", "phases": [], "decisions": []}"#;
    let err = parse_plan(bad).unwrap_err();
    assert!(err.contains("`stack`"), "{err}");
    assert_eq!(plan_json_text("no object here").unwrap_err(), "No JSON object found in the model output.");
}

#[test]
fn markers_slug_the_title_without_position() {
    assert_eq!(slug("Set up the Repo!"), "set-up-the-repo");
    assert_eq!(slug("  --  "), "phase");
    assert_eq!(phase_marker("Build it"), "phase-build-it");
    assert_eq!(phase_marker("Build  it"), phase_marker("build-it"));
    let long = "a".repeat(60);
    assert_eq!(slug(&long).len(), 40);
}

#[test]
fn blank_optional_texts_read_as_nothing() {
    assert_eq!(opt("   "), None);
    assert_eq!(opt(" x "), Some(" x "));
}

fn plan_with_one_phase() -> GeneratedPlan {
    GeneratedPlan {
        current_state: "s".into(),
        body_md: "b".into(),
        confidence: "low".into(),
        notes: "".into(),
        phases: vec![GenPhase {
            title: "Setup".into(),
            goal: " ".into(),
            tasks: vec![GenTask { title: "Init".into(), body: "".into(), verification: "runs".into() }],
        }],
        decisions: vec![],
        stack: GenStack { frontend: None, backend: Some("Rust".into()), database: Some("  ".into()), deployment: None, pipes: None },
    }
}

#[test]
fn rows_follow_the_plan() {
    let rows = phase_rows(&plan_with_one_phase());
    assert_eq!(rows.len(), 1);
    assert_eq!(rows[0].idx, 0);
    assert_eq!(rows[0].marker, "phase-setup");
    assert!(rows[0].goal.is_none());
    assert_eq!(rows[0].tasks.len(), 1);
    assert!(rows[0].tasks[0].body.is_none());
    assert_eq!(rows[0].tasks[0].verification.as_deref(), Some("runs"));
    let panes = stack_rows(&plan_with_one_phase().stack);
    assert_eq!(panes, vec![("backend".to_string(), "Rust".to_string())]);
}

#[test]
fn decisions_need_a_topic_and_a_choice() {
    let d = GenDecision { topic: " ".into(), choice: "x".into(), rationale: "".into(), alternatives: "".into(), consequences: "".into() };
    assert!(decision_row(&d).is_none());
    let d = GenDecision { topic: "DB".into(), choice: "SQLite".into(), rationale: "".into(), alternatives: "pg".into(), consequences: "".into() };
    let row = decision_row(&d).unwrap();
    assert_eq!(row.topic, "DB");
    assert!(row.rationale.is_none());
    assert_eq!(row.alternatives.as_deref(), Some("pg"));
}

#[test]
fn plan_updates_upsert_decisions_instead_of_duplicating() {
    assert!(matches!(decision_action(Some(7), true), DecisionAction::Refresh(7)));
    assert!(matches!(decision_action(None, true), DecisionAction::Keep));
    assert!(matches!(decision_action(None, false), DecisionAction::Insert));
}

#[test]
fn kickoff_wraps_the_trimmed_description() {
    let u = kickoff_user("  a todo app \n");
    assert!(u.starts_with("Here is what I'm building, in my own words:\n\n<description>\na todo app\n</description>"));
    assert!(u.ends_with("Emit only the JSON object."));
}

#[test]
fn slugs_are_short_lowercase_and_start_with_a_letter_or_digit() {
    for title in ["Ünïcode — Über Phase 2!", "-- lead", "a b", &"x".repeat(99), "((()))"] {
        let s = slug(title);
        assert!(!s.is_empty() && s.chars().count() <= 40);
        assert!(s.chars().all(|c| c.is_ascii_lowercase() || c.is_ascii_digit() || c == '-'));
        assert!(!s.starts_with('-'));
    }
    assert_eq!(slug("Ünïcode — Über Phase 2!"), "n-code-ber-phase-2");
}

#[test]
fn kickoff_ignores_whitespace_around_the_description() {
    assert_eq!(kickoff_user("  a todo app \n"), kickoff_user("a todo app"));
}

#[test]
fn the_first_bad_field_is_the_one_named() {
    let bad = r#"{"current_state": "x", "confidence": 3, "phases": "no"}"#;
    assert_eq!(
        parse_plan(bad).unwrap_err(),
        "The model's plan JSON did not match the expected shape: missing or mistyped field `body_md`."
    );
    let bad = r#"{"current_state": "x", "body_md": "b", "confidence": "low", "notes": "", "phases": [{"title": "P"}], "decisions": [], "stack": {}}"#;
    assert_eq!(
        parse_plan(bad).unwrap_err(),
        "The model's plan JSON did not match the expected shape: missing or mistyped field `phases`."
    );
}

#[test]
fn slugs_never_double_a_dash_and_fall_back_to_phase() {
    assert_eq!(slug("a -- b"), "a-b");
    assert_eq!(slug("!!!"), "phase");
    assert_eq!(slug("日本語"), "phase");
    assert_eq!(slug("Étape 2: ça"), "tape-2-a");
}
