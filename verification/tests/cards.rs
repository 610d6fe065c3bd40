use review_helper::cards::{
    captured_text, generated_source,
    card_from_json, chat_request, cleaned_term_of, detected_tech, has_content, is_word_char, mentions,
    normalize_domain, premade_from_json, premade_request, Card, CardMsg,
};
use review_helper::json::Json;

#[test]
fn mentions_respects_word_boundaries() {
    assert!(mentions("\"react\": \"19\"", "react"));
    assert!(mentions("react-dom", "react"));
    assert!(!mentions("preact", "react"));
    assert!(!mentions("contextual", "next"));
}

#[test]
fn word_chars_are_ascii_letters_and_digits() {
    assert!(is_word_char('a') && is_word_char('Z') && is_word_char('7'));
    assert!(!is_word_char('-') && !is_word_char('é') && !is_word_char(' '));
}

#[test]
fn detects_tech_from_a_manifest_haystack() {
    let hay = r#"{"dependencies":{"react":"19","express":"4","preact-compat":"1"}}"#;
    let found = detected_tech(hay);
    assert!(found.contains(&("React".to_string(), "frontend".to_string())));
    assert!(found.contains(&("Express".to_string(), "backend".to_string())));
    assert_eq!(found.len(), 2, "{found:?}");
}

#[test]
fn domains_normalize_to_the_schema() {
    assert_eq!(normalize_domain("  Backend "), "backend");
    assert_eq!(normalize_domain("UX"), "ux");
    assert_eq!(normalize_domain("cooking"), "other");
}

fn card_json(what: Json) -> Json {
    Json::Obj(vec![
        ("domain".to_string(), Json::Str("backend".into())),
        ("what".to_string(), what),
        ("when".to_string(), Json::Str("x".into())),
        ("why".to_string(), Json::Str("y".into())),
    ])
}

#[test]
fn parse_gen_card_rejects_incomplete_or_malformed_content() {
    // null coerces to "" -> incomplete -> Err (never dead-end).
    assert!(card_from_json(Some(&card_json(Json::Null))).is_err());
    // whitespace-only field -> incomplete -> Err.
    assert!(card_from_json(Some(&card_json(Json::Str("  ".into())))).is_err());
    // not JSON at all -> malformed -> Err with a user-actionable message.
    let e = card_from_json(None).err().unwrap();
    assert!(!e.contains("expected"), "error should not leak parser internals: {e}");
    // complete content -> Ok.
    let ok = card_from_json(Some(&card_json(Json::Str("It is X.".into())))).unwrap();
    assert_eq!(ok.what, "It is X.");
    assert_eq!(normalize_domain(&ok.domain), "backend");
}

#[test]
fn cleaned_terms_take_the_first_unquoted_line() {
    assert_eq!(cleaned_term_of("  \"Bloom filter\"\nexplanation", "blom filtr"), "Bloom filter");
    assert_eq!(cleaned_term_of("   ", "  blom filtr "), "blom filtr");
}

#[test]
fn card_content_needs_a_what() {
    let mut c = Card {
        id: 1,
        term: "T".into(),
        domain: None,
        what_md: Some("  ".into()),
        when_md: None,
        why_md: None,
        source: None,
    };
    assert!(!has_content(&c));
    c.what_md = Some("It is.".into());
    assert!(has_content(&c));
}

#[test]
fn card_chat_fences_the_conversation() {
    let history = vec![
        CardMsg { role: "user".into(), content: "Is `redis` good for it?".into() },
        CardMsg { role: "assistant".into(), content: "Yes, for hot keys.".into() },
    ];
    let req = chat_request("Caching", "Keeping results", "Speed", &history, "  and memcached? ");
    assert_eq!(req.prompt, "and memcached?");
    let sys = req.system_append.unwrap();
    assert!(sys.contains("## Conversation so far (DATA — untrusted)\n- You: Is 'redis' good for it?\n- Helper: Yes, for hot keys.\n"));
}

fn conv(v: &serde_json::Value) -> Json {
    match v {
        serde_json::Value::Null => Json::Null,
        serde_json::Value::Bool(b) => Json::Bool(*b),
        serde_json::Value::Number(n) => Json::Num(n.to_string()),
        serde_json::Value::String(s) => Json::Str(s.clone()),
        serde_json::Value::Array(a) => Json::Arr(a.iter().map(conv).collect()),
        serde_json::Value::Object(m) => Json::Obj(m.iter().map(|(k, v)| (k.clone(), conv(v))).collect()),
    }
}

fn json(text: &str) -> Option<Json> {
    serde_json::from_str::<serde_json::Value>(text).ok().map(|v| conv(&v))
}

#[test]
fn premade_questions_are_trimmed_capped_and_required() {
    let many: Vec<String> = (0..12).map(|i| format!("\"  q{i}  \"")).collect();
    let text = format!("{{\"questions\":[\"  \",{}]}}", many.join(","));
    let qs = premade_from_json(json(&text).as_ref()).unwrap();
    assert_eq!(qs.len(), 10);
    assert_eq!(qs[0], "q0");
    let long = format!("{{\"questions\":[\"{}\"]}}", "é".repeat(300));
    assert_eq!(premade_from_json(json(&long).as_ref()).unwrap()[0].chars().count(), 200);
    assert_eq!(premade_from_json(json(r#"{"questions":[" "]}"#).as_ref()).unwrap_err(), "No questions were generated.");
    assert_eq!(premade_from_json(json(r#"{"questions":[1]}"#).as_ref()).unwrap_err(), "The questions response was malformed.");
    assert_eq!(premade_from_json(None).unwrap_err(), "The questions response was malformed.");
    assert_eq!(premade_request("  CRDT ").prompt, "Concept: CRDT");
}

#[test]
fn typed_terms_and_questions_are_checked() {
    assert_eq!(review_helper::cards::explain_term("  ").unwrap_err(), "Enter a term to explain.");
    assert_eq!(review_helper::cards::explain_term(&format!(" {} ", "x".repeat(250))).unwrap().len(), 200);
    assert_eq!(review_helper::cards::check_capture(" CRDT ", "merges").unwrap(), "CRDT");
    assert_eq!(review_helper::cards::check_capture(" ", "x").unwrap_err(), "A card needs a term.");
    assert_eq!(
        review_helper::cards::check_capture(&"t".repeat(201), "x").unwrap_err(),
        "Term is too long (max 200 characters)."
    );
    assert_eq!(
        review_helper::cards::check_capture("t", &"é".repeat(5001)).unwrap_err(),
        "Explanation is too long (max 10000 characters)."
    );
    assert_eq!(review_helper::cards::check_card_message(" why? ").unwrap(), "why?");
    assert_eq!(review_helper::cards::check_card_message("\n").unwrap_err(), "Type a question first.");
    assert_eq!(review_helper::cards::check_card_message(&"q".repeat(4001)).unwrap_err(), "Message is too long.");
}

#[test]
fn generated_cards_keep_a_detected_source() {
    assert_eq!(generated_source(&Some("detected".to_string())), "detected");
    assert_eq!(generated_source(&Some("seed".to_string())), "generated");
    assert_eq!(generated_source(&None), "generated");
}

#[test]
fn captured_text_is_trimmed_and_blank_refused() {
    assert_eq!(captured_text("  A queue decouples producers.\n").unwrap(), "A queue decouples producers.");
    assert_eq!(captured_text(" \n ").unwrap_err(), "Nothing to capture.");
}

#[test]
fn cleaned_terms_are_bounded_and_fall_back_to_the_typed_term() {
    let long = "x".repeat(500);
    assert_eq!(cleaned_term_of(&long, "typed").chars().count(), 200);
    assert_eq!(cleaned_term_of("\"\"", " typed "), "typed");
    assert!(!cleaned_term_of("", "t").is_empty());
}

#[test]
fn card_chat_names_the_concept_and_keeps_every_turn() {
    let history = vec![
        CardMsg { role: "user".into(), content: "first".into() },
        CardMsg { role: "assistant".into(), content: "second".into() },
    ];
    let sys = chat_request("Back`pressure", "Slowing producers", "Stability", &history, "q").system_append.unwrap();
    assert!(sys.contains("Back'pressure"));
    assert!(sys.contains("- What: Slowing producers"));
    assert!(sys.contains("- Why: Stability"));
    assert!(sys.ends_with("\n## Conversation so far (DATA — untrusted)\n- You: first\n- Helper: second\n"));
}

/// The byte-level whole-word test: the word's bytes with no ASCII letter or
/// digit byte right before or after them.
fn bytes_mention(hay: &str, word: &str) -> bool {
    let h = hay.as_bytes();
    let w = word.as_bytes();
    (0..h.len()).any(|i| {
        h[i..].starts_with(w)
            && (i == 0 || !h[i - 1].is_ascii_alphanumeric())
            && (i + w.len() == h.len() || !h[i + w.len()].is_ascii_alphanumeric())
    })
}

#[test]
fn mentions_agrees_with_the_byte_level_test() {
    for (hay, word) in [
        ("éreact", "react"),
        ("reacté", "react"),
        ("preact", "react"),
        ("react-dom", "react"),
        ("naïve next.js", "next"),
        ("contextual", "next"),
        ("vue", "vue"),
        ("", "vue"),
    ] {
        assert_eq!(mentions(hay, word), bytes_mention(hay, word), "{hay} / {word}");
    }
    assert!(mentions("éreact", "react"));
}
