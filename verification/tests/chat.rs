use review_helper::chat::{chat_progress, history_context, render_transcript, title_from, ChatEvent, ChatMessage, ChatThread};
use review_helper::model::ModelEvent;

fn msg(role: &str, content: &str) -> ChatMessage {
    ChatMessage { role: role.to_string(), content: content.to_string() }
}

#[test]
fn history_budget_keeps_the_newest_turns() {
    let mut msgs = Vec::new();
    for i in 0..40 {
        msgs.push(msg("user", &format!("question number {i:02} padded {}", "x".repeat(80))));
        msgs.push(msg("assistant", &format!("answer number {i:02} padded {}", "y".repeat(80))));
    }
    let mut budget = 1200usize; // fits only a handful of lines
    let out = render_transcript(&msgs, "This chat so far", &mut budget);
    assert!(out.contains("answer number 39"), "newest turn must survive: {out}");
    assert!(!out.contains("question number 00"), "oldest must be trimmed: {out}");
    assert!(out.contains("earlier messages trimmed"));
    assert!(budget < 1200);
}

#[test]
fn history_includes_other_chats_and_is_fenced() {
    let threads = vec![
        ChatThread { id: 2, title: None, messages: vec![] },
        ChatThread {
            id: 1,
            title: Some("First".into()),
            messages: vec![msg("user", "Does it have `backticks`?"), msg("assistant", "Yes.")],
        },
    ];
    let h = history_context(&threads, 2);
    assert!(h.contains("Earlier chat"));
    assert!(h.contains("Does it have 'backticks'?"), "backticks neutralized");
    assert!(h.contains("untrusted data"));
    assert!(h.contains("- You: Does it have 'backticks'?\n- Helper: Yes.\n"));
}

#[test]
fn no_history_is_an_empty_block() {
    let threads = vec![ChatThread { id: 1, title: None, messages: vec![] }];
    assert_eq!(history_context(&threads, 1), "");
    assert_eq!(history_context(&vec![], 9), "");
}

#[test]
fn the_current_chat_comes_first() {
    let threads = vec![
        ChatThread { id: 1, title: Some("Other".into()), messages: vec![msg("user", "older question")] },
        ChatThread { id: 2, title: None, messages: vec![msg("user", "current question")] },
    ];
    let h = history_context(&threads, 2);
    let cur = h.find("This chat so far").unwrap();
    let other = h.find("Earlier chat").unwrap();
    assert!(cur < other);
}

#[test]
fn titles_are_the_trimmed_first_sixty_characters() {
    assert_eq!(title_from("  hello  "), "hello");
    assert_eq!(title_from(&"é".repeat(70)).chars().count(), 60);
}

#[test]
fn streamed_text_becomes_tokens() {
    match chat_progress(1, 2, &ModelEvent::AssistantText { text: "hi".into() }) {
        Some(ChatEvent::Token { project_id, transcript_id, text }) => {
            assert_eq!((project_id, transcript_id, text.as_str()), (1, 2, "hi"))
        }
        other => panic!("unexpected {other:?}"),
    }
}
