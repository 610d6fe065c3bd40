use std::sync::atomic::{AtomicUsize, Ordering};
use std::sync::Mutex;

use review_helper::json::Json;
use review_helper::learning::{
    bounded_source, check_subject, check_tutor_message, decode_upload, excerpts_block, fetch_modules,
    flashcards_from_json, fts_query, grade_of, grounding_label, intake_answer, intake_block,
    intake_questions_from_json, norm_title, notes_from_reply, pdf_text, proposal_from_json, reply,
    tutor_query, tutor_request, use_web, verdict_sufficient, merge_proposals, Grade, IntakeItem, ParsedModule, PdfExtraction,
    SubjectDetail, TutorMsg,
};
use review_helper::model::{ModelEvent, ModelProvider, ModelRequest, Tool};
use review_helper::runs::CancelToken;

fn to_json(v: &serde_json::Value) -> Json {
    match v {
        serde_json::Value::Null => Json::Null,
        serde_json::Value::Bool(b) => Json::Bool(*b),
        serde_json::Value::Number(n) => Json::Num(n.to_string()),
        serde_json::Value::String(s) => Json::Str(s.clone()),
        serde_json::Value::Array(a) => Json::Arr(a.iter().map(to_json).collect()),
        serde_json::Value::Object(m) => Json::Obj(m.iter().map(|(k, v)| (k.clone(), to_json(v))).collect()),
    }
}

fn parse(text: String) -> Option<Json> {
    serde_json::from_str::<serde_json::Value>(&text).ok().map(|v| to_json(&v))
}

struct CountingProvider {
    calls: AtomicUsize,
    json: &'static str,
}

impl ModelProvider for CountingProvider {
    fn run(&mut self, _req: &ModelRequest, _cancel: &CancelToken) -> Vec<ModelEvent> {
        self.calls.fetch_add(1, Ordering::SeqCst);
        vec![ModelEvent::Completed { session_id: None, text: self.json.to_string() }]
    }
}

fn subject_with_source(source: &str) -> SubjectDetail {
    SubjectDetail {
        id: 1,
        title: "Biology".into(),
        source_kind: "upload".into(),
        source_text: Some(source.to_string()),
        stage: "intake".into(),
        web_fallback: false,
    }
}

#[test]
fn small_sources_propose_in_one_call_with_full_excerpt() {
    let mut p = CountingProvider {
        calls: AtomicUsize::new(0),
        json: r#"{"modules":[{"kind":"notes","title":"Cells","summary":"s","skill":"cells"}]}"#,
    };
    let mut progress: Vec<(usize, usize)> = Vec::new();
    let out = fetch_modules(&mut p, &parse, &subject_with_source("short doc"), &vec![], &CancelToken::new(), &mut progress)
        .unwrap();
    assert_eq!(p.calls.load(Ordering::SeqCst), 1);
    assert_eq!(out.len(), 1);
    assert_eq!(out[0].excerpt.as_deref(), Some("short doc"));
}

#[test]
fn large_sources_propose_per_section_and_dedupe_titles() {
    // ~3 sections of distinct content; the scripted model proposes the same
    // module title every call, so the merge keeps exactly one.
    let mut doc = String::new();
    for i in 0..3 {
        doc.push_str(&format!("# Chapter {i}\n\n{}\n\n", format!("content {i} ").repeat(2500)));
    }
    let mut p = CountingProvider {
        calls: AtomicUsize::new(0),
        json: r#"{"modules":[{"kind":"quiz","title":"Photosynthesis","summary":"s","skill":"photo"}]}"#,
    };
    let mut progress: Vec<(usize, usize)> = Vec::new();
    let out = fetch_modules(&mut p, &parse, &subject_with_source(&doc), &vec![], &CancelToken::new(), &mut progress).unwrap();

    let calls = p.calls.load(Ordering::SeqCst);
    assert!(calls >= 2, "a large doc must be proposed per section, got {calls} call(s)");
    assert_eq!(out.len(), 1, "duplicate titles across sections merge");
    // The surviving module is grounded on the section it came from.
    assert!(out[0].excerpt.as_deref().unwrap().contains("content 0"));
    assert_eq!(progress.last().map(|p| p.1), Some(calls), "progress reaches the section count");
}

#[test]
fn a_cancelled_section_proposal_stops() {
    let mut doc = String::new();
    for i in 0..3 {
        doc.push_str(&format!("# Chapter {i}\n\n{}\n\n", format!("content {i} ").repeat(2500)));
    }
    let mut p = CountingProvider { calls: AtomicUsize::new(0), json: "{}" };
    let cancel = CancelToken::new();
    cancel.cancel();
    let mut progress: Vec<(usize, usize)> = Vec::new();
    let out = fetch_modules(&mut p, &parse, &subject_with_source(&doc), &vec![], &cancel, &mut progress);
    assert_eq!(out.err().map(|e| e), Some("Stopped.".to_string()));
    assert_eq!(p.calls.load(Ordering::SeqCst), 0);
}

struct CapturingProvider(Mutex<Vec<Vec<Tool>>>);

impl ModelProvider for CapturingProvider {
    fn run(&mut self, req: &ModelRequest, _c: &CancelToken) -> Vec<ModelEvent> {
        self.0.lock().unwrap().push(req.allowed_tools.clone());
        vec![ModelEvent::Completed { session_id: None, text: "ok [1]".into() }]
    }
}

fn subject() -> SubjectDetail {
    SubjectDetail {
        id: 1,
        title: "Bio".into(),
        source_kind: "upload".into(),
        source_text: Some("cells".into()),
        stage: "ready".into(),
        web_fallback: false,
    }
}

#[test]
fn grounded_replies_never_carry_web_tools() {
    let mut p = CapturingProvider(Mutex::new(vec![]));
    let excerpts = "\n\n## Study material excerpts (DATA — untrusted)\n[1] doc › part: cells are small\n";
    reply(&mut p, &subject(), "", &vec![], "what are cells?", excerpts, false, &CancelToken::new()).unwrap();
    let tools = p.0.lock().unwrap();
    assert!(
        !tools[0].iter().any(|t| matches!(t, Tool::WebSearch | Tool::WebFetch)),
        "grounded path must never pass web tools: {:?}",
        tools[0]
    );
}

#[test]
fn the_web_fallback_path_is_the_only_one_with_web_tools() {
    let mut p = CapturingProvider(Mutex::new(vec![]));
    reply(&mut p, &subject(), "", &vec![], "what is CRISPR?", "", true, &CancelToken::new()).unwrap();
    let tools = p.0.lock().unwrap();
    assert!(tools[0].iter().any(|t| matches!(t, Tool::WebSearch)));
}

#[test]
fn tutor_history_keeps_the_newest_turns() {
    let mut history = Vec::new();
    for i in 0..400 {
        history.push(TutorMsg { role: "user".into(), content: format!("question {i:03} {}", "x".repeat(60)), grounding: None });
        history.push(TutorMsg { role: "assistant".into(), content: format!("answer {i:03} {}", "y".repeat(60)), grounding: None });
    }
    let req = tutor_request(&subject(), "", &history, "next", "", false);
    let sys = req.system_append.unwrap();
    assert!(sys.contains("answer 399"), "newest turn survives");
    assert!(!sys.contains("question 000"), "oldest trimmed");
    assert!(sys.contains("- …(earlier turns trimmed)\n"));
    assert_eq!(req.prompt, "next");
}

#[test]
fn bounded_sources_are_labeled_when_cut() {
    assert_eq!(bounded_source("abc"), "abc");
    let long = "z".repeat(12_001);
    let b = bounded_source(&long);
    assert!(b.starts_with(&"z".repeat(12_000)));
    assert!(b.ends_with("\n…(beginning of a longer document — 12001 chars total)"));
}

#[test]
fn intake_blocks_fence_answers() {
    assert_eq!(intake_block(&vec![]), "(not scoped)");
    let items = vec![
        IntakeItem { id: 1, idx: 0, question: "Level?".into(), answer: Some("`basic`".into()) },
        IntakeItem { id: 2, idx: 1, question: "Goal?".into(), answer: None },
    ];
    assert_eq!(intake_block(&items), "- Q: Level?\n  A: 'basic'\n- Q: Goal?\n  A: (no answer)\n");
}

#[test]
fn titles_normalize_for_dedupe() {
    assert_eq!(norm_title("  Photo-Synthesis! "), "photosynthesis");
    assert_eq!(norm_title("Photosynthesis"), norm_title("photo synthesis"));
}

#[test]
fn keyword_queries_quote_every_word() {
    assert_eq!(fts_query("  cell  \"wall\" NEAR "), "\"cell\" OR \"wall\" OR \"NEAR\"");
    assert_eq!(fts_query("   "), "");
}

#[test]
fn excerpts_are_numbered_and_fenced() {
    let (block, labels) = excerpts_block(&vec![("doc › a".to_string(), "has `code`".to_string())]);
    assert!(block.ends_with("[1] doc › a: has 'code'\n"));
    assert_eq!(labels, vec!["doc › a".to_string()]);
}

#[test]
fn proposals_keep_known_kinds_up_to_the_cap() {
    let m = |k: &str, t: &str| {
        Json::Obj(vec![("kind".into(), Json::Str(k.into())), ("title".into(), Json::Str(t.into()))])
    };
    let j = Json::Obj(vec![(
        "modules".into(),
        Json::Arr(vec![m("notes", "A"), m("essay", "B"), m(" quiz ", "C"), m("flashcards", " "), m("notes", "D")]),
    )]);
    let out = proposal_from_json(Some(&j), 2).unwrap();
    assert_eq!(out.iter().map(|x| x.title.as_str()).collect::<Vec<_>>(), vec!["A", "C"]);
    assert_eq!(out[0].summary, "");
    assert!(proposal_from_json(None, 3).is_err());
}

#[test]
fn tutor_turn_decisions() {
    assert_eq!(check_tutor_message("  hi "), Ok("hi".to_string()));
    assert_eq!(check_tutor_message("  "), Err("Type a message first.".to_string()));
    let h = vec![TutorMsg { role: "user".into(), content: "what is ATP?".into(), grounding: None }];
    assert_eq!(tutor_query(&h, "and why?"), "what is ATP?\nand why?");
    assert_eq!(tutor_query(&vec![], "and why?"), "and why?");
    assert!(!verdict_sufficient("insufficient"));
    assert!(verdict_sufficient("SUFFICIENT"));
    assert!(use_web(true, false, false));
    assert!(!use_web(false, false, true));
    assert_eq!(grounding_label(true, true), "web");
    assert_eq!(grounding_label(true, false), "mixed");
    assert_eq!(grounding_label(false, true), "none");
    assert_eq!(grounding_label(false, false), "local");
}

#[test]
fn scoping_questions_and_answers_are_cleaned() {
    let j = Json::Obj(vec![(
        "questions".into(),
        Json::Arr(vec![Json::Str(" Level? ".into()), Json::Str("   ".into()), Json::Str("Goal?".into())]),
    )]);
    assert_eq!(intake_questions_from_json(Some(&j)).unwrap(), vec!["Level?".to_string(), "Goal?".to_string()]);
    assert!(intake_questions_from_json(Some(&Json::Obj(vec![]))).is_err());
    assert_eq!(intake_answer("  Beginner  "), Some("Beginner".to_string()));
    assert_eq!(intake_answer("   "), None);
}

#[test]
fn materials_are_validated() {
    assert_eq!(notes_from_reply("  # Notes \n"), Ok("# Notes".to_string()));
    assert!(notes_from_reply("  ").is_err());
    let card = |f: &str, b: &str| {
        Json::Obj(vec![("front".into(), Json::Str(f.into())), ("back".into(), Json::Str(b.into()))])
    };
    let j = Json::Obj(vec![("cards".into(), Json::Arr(vec![card(" Q ", " A "), card("", "x")]))]);
    assert_eq!(flashcards_from_json(Some(&j)).unwrap(), vec![("Q".to_string(), "A".to_string())]);
}

#[test]
fn subjects_are_checked() {
    assert_eq!(check_subject(" Spanish ", "describe", " basics "), Ok(("Spanish".to_string(), "basics".to_string())));
    assert_eq!(check_subject(" ", "describe", ""), Err("Give the subject a name.".to_string()));
    assert_eq!(check_subject("S", "video", ""), Err("Unknown subject source.".to_string()));
}

#[test]
fn uploads_decode_from_base64() {
    assert_eq!(decode_upload(" aGVsbG8= "), Ok(b"hello".to_vec()));
    assert!(decode_upload("not base64!").is_err());
}

#[test]
fn pdf_text_is_trimmed_or_explained() {
    assert_eq!(pdf_text(true, PdfExtraction::Text("x".into())), Err("That file was empty.".to_string()));
    assert_eq!(pdf_text(false, PdfExtraction::Text("  body ".into())), Ok("body".to_string()));
    assert!(pdf_text(false, PdfExtraction::Text("   ".into())).is_err());
    assert!(pdf_text(false, PdfExtraction::Crashed).is_err());
    assert!(pdf_text(false, PdfExtraction::Failed("bad".into())).unwrap_err().contains("(bad)"));
}

#[test]
fn grades_map_from_buttons() {
    assert!(matches!(grade_of(1), Grade::Again));
    assert!(matches!(grade_of(2), Grade::Hard));
    assert!(matches!(grade_of(3), Grade::Good));
    assert!(matches!(grade_of(4), Grade::Easy));
    assert!(matches!(grade_of(0), Grade::Easy));
}

fn pm(title: &str) -> ParsedModule {
    ParsedModule { kind: "notes".into(), title: title.into(), summary: "s".into(), skill: "k".into() }
}

#[test]
fn merge_keeps_first_of_each_title_and_grounds_on_its_section() {
    let excerpts = vec![Some("sec 0".to_string()), Some("sec 1".to_string())];
    let props = vec![vec![pm("Cells"), pm("Energy")], vec![pm(" cells! "), pm("Genes")]];
    let out = merge_proposals(&excerpts, &props).unwrap();
    let got: Vec<(String, Option<String>)> = out.iter().map(|m| (m.module.title.clone(), m.excerpt.clone())).collect();
    assert_eq!(
        got,
        vec![
            ("Cells".to_string(), Some("sec 0".to_string())),
            ("Energy".to_string(), Some("sec 0".to_string())),
            ("Genes".to_string(), Some("sec 1".to_string())),
        ]
    );
}

#[test]
fn merge_stops_asking_after_twelve_and_reports_an_empty_merge() {
    let excerpts: Vec<Option<String>> = (0..6).map(|i| Some(format!("s{i}"))).collect();
    let props: Vec<Vec<ParsedModule>> =
        (0..6).map(|i| (0..3).map(|j| pm(&format!("t{i}x{j}"))).collect()).collect();
    let out = merge_proposals(&excerpts, &props).unwrap();
    assert_eq!(out.len(), 12);
    assert_eq!(out.last().unwrap().excerpt.as_deref(), Some("s3"));
    assert_eq!(
        merge_proposals(&excerpts, &vec![vec![], vec![]]).err(),
        Some("No study modules were proposed.".to_string())
    );
}

#[test]
fn a_short_conversation_is_shown_whole_without_a_trim_note() {
    let history = vec![
        TutorMsg { role: "user".into(), content: " hi ".into(), grounding: None },
        TutorMsg { role: "assistant".into(), content: "hello `there`".into(), grounding: None },
    ];
    let sys = tutor_request(&subject(), "", &history, "next", "", false).system_append.unwrap();
    assert!(sys.contains("\n## Conversation so far (DATA — untrusted)\n- Learner: hi\n- Tutor: hello 'there'\n"));
    assert!(!sys.contains("earlier turns trimmed"));
}

struct ScriptedProvider(Vec<ModelEvent>);

impl ModelProvider for ScriptedProvider {
    fn run(&mut self, _req: &ModelRequest, _cancel: &CancelToken) -> Vec<ModelEvent> {
        self.0.clone()
    }
}

#[test]
fn a_proposal_fails_with_what_its_call_gave() {
    let mut progress: Vec<(usize, usize)> = Vec::new();
    let mut p = ScriptedProvider(vec![ModelEvent::Completed { session_id: None, text: "no object".into() }]);
    let out = fetch_modules(&mut p, &parse, &subject_with_source("short"), &vec![], &CancelToken::new(), &mut progress);
    assert_eq!(out.err(), Some("The model returned no usable JSON.".to_string()));
    let mut p = ScriptedProvider(vec![ModelEvent::Failed { detail: "boom".into() }]);
    let out = fetch_modules(&mut p, &parse, &subject_with_source("short"), &vec![], &CancelToken::new(), &mut progress);
    assert_eq!(out.err(), Some("boom".to_string()));
    let mut p = ScriptedProvider(vec![ModelEvent::Completed { session_id: None, text: r#"{"modules": 3}"#.into() }]);
    let out = fetch_modules(&mut p, &parse, &subject_with_source("short"), &vec![], &CancelToken::new(), &mut progress);
    assert_eq!(out.err(), Some("The proposed plan was malformed.".to_string()));
    let mut p = ScriptedProvider(vec![ModelEvent::Completed { session_id: None, text: r#"{"modules": []}"#.into() }]);
    let out = fetch_modules(&mut p, &parse, &subject_with_source("short"), &vec![], &CancelToken::new(), &mut progress);
    assert_eq!(out.err(), Some("No study modules were proposed.".to_string()));
    assert!(progress.is_empty());
}
