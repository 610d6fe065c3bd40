use review_helper::grill::{
    check_answer, grill_user, questions_from_json, select_topics, target_for_depth, valid_question_status,
    BankTopic,
};
use review_helper::json::Json;

#[test]
fn depth_scales_the_target() {
    assert_eq!(target_for_depth(1), 5);
    assert_eq!(target_for_depth(5), 25);
    assert_eq!(target_for_depth(99), 25, "clamped");
    assert_eq!(target_for_depth(0), 5, "clamped up");
}

fn bank(n: usize) -> Vec<BankTopic> {
    (0..n)
        .map(|i| BankTopic { dimension: "vision".into(), topic: format!("t{i}"), hint: "h".into() })
        .collect()
}

#[test]
fn select_topics_fills_to_target_then_skips_covered() {
    let b = bank(30);
    let first = select_topics(&b, &vec![], 0, 1);
    assert_eq!(first, vec![0, 1, 2, 3, 4]);
    assert!(select_topics(&b, &vec![], 5, 1).is_empty(), "target already met");
    let covered: Vec<String> = first.iter().map(|&i| b[i].topic.clone()).collect();
    let more = select_topics(&b, &covered, 5, 2);
    assert_eq!(more, vec![5, 6, 7, 8, 9]);
}

#[test]
fn grill_prompt_lists_every_topic() {
    let p = grill_user(&bank(2));
    assert!(p.contains("- dimension: vision | bank_topic: t0 | focus: h\n- dimension: vision | bank_topic: t1 | focus: h\n"));
}

fn q(d: &str, t: &str, qu: &str, a: &str) -> Json {
    Json::Obj(vec![
        ("dimension".into(), Json::Str(d.into())),
        ("bank_topic".into(), Json::Str(t.into())),
        ("question".into(), Json::Str(qu.into())),
        ("recommended_answer".into(), Json::Str(a.into())),
    ])
}

#[test]
fn parse_questions_keeps_only_complete_bounded_entries() {
    let huge = "x".repeat(5_001);
    let batch = Json::Obj(vec![(
        "questions".into(),
        Json::Arr(vec![
            q("vision", "Core problem", "What problem does X solve?", "It solves Y."),
            q("users", "Primary user", "  ", "skip: empty question"),
            q("scope", "MVP", "Real question?", ""),
            q("data", "Entities", &huge, "too long"),
        ]),
    )]);
    let qs = questions_from_json(Some(&batch)).unwrap();
    assert_eq!(qs.len(), 1, "empty-question, empty-answer, and oversized entries dropped");
    assert_eq!(qs[0].bank_topic, "Core problem");

    assert!(questions_from_json(None).is_err());
    assert!(questions_from_json(Some(&Json::Obj(vec![("questions".into(), Json::Arr(vec![]))]))).is_err());
}

#[test]
fn answers_and_statuses_are_checked() {
    assert_eq!(check_answer("  yes  "), Ok("yes".to_string()));
    assert_eq!(check_answer("   "), Err("Write an answer first.".to_string()));
    assert!(check_answer(&"a".repeat(10_001)).is_err());
    assert!(valid_question_status("not_relevant"));
    assert!(!valid_question_status("answered"));
}
