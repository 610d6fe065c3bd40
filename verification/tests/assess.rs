use review_helper::assess::{assess_request, assess_user, assessment_progress, check_assessment, clamp_overall, AssessmentEvent};
use review_helper::json::{extract_json, Json};
use review_helper::model::ModelEvent;

fn to_json(v: &serde_json::Value) -> Json {
    match v {
        serde_json::Value::Null => Json::Null,
        serde_json::Value::Bool(b) => Json::Bool(*b),
        serde_json::Value::Number(n) => Json::Num(n.to_string()),
        serde_json::Value::String(s) => Json::Str(s.clone()),
        serde_json::Value::Array(a) => Json::Arr(a.iter().map(to_json).collect()),
        serde_json::Value::Object(m) => Json::Obj(m.iter().map(|(k, v)| (k.clone(), to_json(v))).collect()),
    }
}

/// The reading of an assessment reply: find the object, parse it, check its shape.
fn parse_assessment(raw: &str) -> Result<Json, String> {
    let text = extract_json(raw).ok_or("No JSON object found in the assessment output.")?;
    let v: serde_json::Value = serde_json::from_str(&text).map_err(|e| format!("Assessment JSON invalid: {e}"))?;
    let j = to_json(&v);
    check_assessment(&j)?;
    Ok(j)
}

const SAMPLE: &str = r#"{
  "dimensions": {
    "architecture": {"score": 70, "reason": "clear module split"},
    "security": {"score": 60, "reason": "no secret hits but no auth yet"}
  },
  "dimensions_overall": 110,
  "production": {
    "tests": {"score": 80, "reason": "has tests"}
  },
  "production_overall": 71,
  "top_fixes": ["Add CI", "Cover error paths", "Document setup"],
  "hygiene": ["No obvious cruft"]
}"#;

#[test]
fn rejects_malformed_assessment() {
    assert!(parse_assessment("not json").is_err());
    assert_eq!(
        parse_assessment(r#"{"dimensions": {}}"#).unwrap_err(),
        "Assessment JSON missing dimensions/production/top_fixes/hygiene."
    );
}

#[test]
fn parses_and_persists_an_assessment_clamping_overall() {
    let a = parse_assessment(SAMPLE).unwrap();
    assert_eq!(clamp_overall(&a, "dimensions_overall"), 100, "dimensions_overall 110 clamps to 100");
    assert_eq!(clamp_overall(&a, "production_overall"), 71);
    assert_eq!(clamp_overall(&a, "missing"), 0);
    let neg = to_json(&serde_json::from_str::<serde_json::Value>(r#"{"o": -5}"#).unwrap());
    assert_eq!(clamp_overall(&neg, "o"), 0);
}

#[test]
fn assessment_prompt_carries_the_scan_and_runs_read_only_in_the_clone() {
    let u = assess_user("  lines: 10\n");
    assert!(u.starts_with("SCAN FACTS (deterministic measurements of the repo):\n\nlines: 10\n\nExplore"));
    let req = assess_request("lines: 10", "/tmp/clone");
    assert_eq!(req.prompt, u);
    assert_eq!(req.cwd.as_deref(), Some("/tmp/clone"));
    assert!(req.system_append.is_some());
}

#[test]
fn tool_use_is_reported_as_progress() {
    let ev = ModelEvent::ToolUse { name: "Read".into() };
    match assessment_progress(3, &ev) {
        Some(AssessmentEvent::Tool { project_id, name }) => assert_eq!((project_id, name.as_str()), (3, "Read")),
        other => panic!("unexpected {other:?}"),
    }
    assert!(assessment_progress(3, &ModelEvent::AssistantText { text: "x".into() }).is_none());
}

#[test]
fn assessment_request_ignores_whitespace_around_the_scan() {
    assert_eq!(assess_user("\n  files: 3 \n"), assess_user("files: 3"));
}

#[test]
fn the_extracted_object_is_the_shortest_balanced_one_from_the_first_brace() {
    assert_eq!(extract_json(" note {\"a\":\"}\"} {\"b\":1}").as_deref(), Some("{\"a\":\"}\"}"));
    assert_eq!(extract_json("{\"a\":{\"b\":\"\\\"}\"}} tail").as_deref(), Some("{\"a\":{\"b\":\"\\\"}\"}}"));
    assert_eq!(extract_json("{\"a\": 1"), None);
    assert_eq!(extract_json("no braces"), None);
}
