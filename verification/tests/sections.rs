use review_helper::sections::{split_sections, SECTION_TARGET_CHARS};

#[test]
fn small_text_is_one_section() {
    let s = split_sections("# Intro\nhello world", 30_000);
    assert_eq!(s.len(), 1);
    assert_eq!(s[0].title.as_deref(), Some("Intro"));
}

#[test]
fn large_text_splits_on_headings_and_covers_everything() {
    let mut doc = String::new();
    for i in 0..12 {
        doc.push_str(&format!("# Chapter {i}\n\n{}\n\n", format!("para {i} ").repeat(400)));
    }
    let sections = split_sections(&doc, 10_000);
    assert!(sections.len() > 1, "must split: {} chars", doc.len());
    let total: usize = sections.iter().map(|s| s.body.len()).sum();
    // Nothing silently dropped (joins differ only by whitespace).
    assert!(total as f64 > doc.len() as f64 * 0.95, "{total} vs {}", doc.len());
    assert!(sections.iter().all(|s| s.body.len() <= 12_000));
    assert_eq!(sections[0].title.as_deref(), Some("Chapter 0"));
}

#[test]
fn one_giant_paragraph_is_hard_split_not_dropped() {
    let doc = "x".repeat(50_000);
    let sections = split_sections(&doc, 10_000);
    let total: usize = sections.iter().map(|s| s.body.len()).sum();
    assert_eq!(total, 50_000);
}

#[test]
fn blank_text_has_no_sections() {
    assert!(split_sections("   \n\n ", SECTION_TARGET_CHARS).is_empty());
}

#[test]
fn non_whitespace_text_survives_splitting() {
    let doc = "# A\nalpha beta\n\n# B\ngamma\n\ndelta";
    let sections = split_sections(doc, 8);
    let joined: String = sections.iter().map(|s| s.body.as_str()).collect();
    let strip = |s: &str| s.chars().filter(|c| !c.is_whitespace()).collect::<String>();
    assert_eq!(strip(&joined), strip(doc));
}

#[test]
fn tiny_targets_still_make_progress() {
    let s = split_sections("Hi", 3);
    assert_eq!(s.len(), 1);
    assert_eq!(s[0].body, "Hi");
    let s = split_sections("é", 1);
    assert_eq!(s.len(), 1);
    assert_eq!(s[0].body, "é");
    assert!(s[0].title.is_none());
    let s = split_sections("abc", 1);
    let bodies: Vec<&str> = s.iter().map(|x| x.body.as_str()).collect();
    assert_eq!(bodies, vec!["a", "b", "c"]);
}
