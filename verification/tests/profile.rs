use review_helper::profile::{
    excerpt_of, facts_of, facts_update, initial_content, learner_facts_md, notes_update, observations_update, pct,
    reflection_due, reflection_request, reflection_skip, reflection_unavailable, replace_between, reset_auto, review_facts_md, section, skeleton, FactCounts, EXCERPT_CAP,
    OBSERVATIONS_CAP,
};

const FACTS_START: &str = "<!-- rh:facts:start (auto — regenerated from measurements; edits here are overwritten) -->";
const FACTS_END: &str = "<!-- rh:facts:end -->";
const OBS_START: &str =
    "<!-- rh:observations:start (auto — model-written, evidence-cited; edit below in Your notes instead) -->";
const OBS_END: &str = "<!-- rh:observations:end -->";

fn counts(quiz_attempts: i64, quiz_correct: i64) -> FactCounts {
    FactCounts {
        quiz_attempts,
        quiz_correct,
        quiz_fast: quiz_attempts,
        quiz_fast_correct: quiz_correct,
        grades: 0,
        lapses: 0,
        tutor_turns: 0,
        explain_reasks: 0,
        suggestions: 0,
        suggestions_approved: 0,
        grill_answers: 0,
        grill_chars: 0,
        assess_runs: 0,
    }
}

#[test]
fn user_notes_survive_facts_and_observation_rewrites() {
    let mut content = notes_update(&skeleton("T", "i"), "MY PRECIOUS NOTE — do not touch").unwrap();
    for i in 0..100 {
        let md = learner_facts_md(&facts_of(&counts(i + 1, i + 1)));
        content = facts_update(&content, &md).unwrap();
        content = observations_update(&content, &format!("- prefers worked examples (evidence: round {i})")).unwrap();
    }
    assert!(content.contains("MY PRECIOUS NOTE — do not touch"));
    assert!(content.contains("evidence: round 99"));
    assert!(content.ends_with("## Your notes (never auto-edited)\n\nMY PRECIOUS NOTE — do not touch\n"));
}

#[test]
fn oversized_or_escaping_observations_are_rejected() {
    let content = observations_update(&skeleton("T", "i"), "fine").unwrap();
    let big = "x".repeat(OBSERVATIONS_CAP + 1);
    assert_eq!(
        observations_update(&content, &big).unwrap_err(),
        "Observations over the 2000-char cap — keeping the previous version."
    );
    assert_eq!(
        observations_update(&content, "## Your notes (never auto-edited)\nhijack").unwrap_err(),
        "Observations tried to escape its region — keeping the previous version."
    );
    assert!(observations_update(&content, "<!-- rh:facts:end -->").is_err());
    assert!(content.contains("fine"), "previous version kept on rejection");
    assert_eq!(
        observations_update("no markers", "ok").unwrap_err(),
        "Profile file is missing its Observations markers — reset the file in Settings."
    );
}

#[test]
fn excerpt_is_empty_without_evidence_and_bounded_with_it() {
    let raw = skeleton("T", "i");
    assert!(section(&raw, FACTS_START, FACTS_END).unwrap().contains("no measurements yet"));
    assert_eq!(excerpt_of(&raw, true), "");

    let md = learner_facts_md(&facts_of(&counts(1, 1)));
    let content = facts_update(&raw, &md).unwrap();
    let content = observations_update(&content, "- short observation (evidence: 1/1)").unwrap();
    let ex = excerpt_of(&content, true);
    assert!(ex.contains("short observation"));
    assert!(ex.chars().count() <= EXCERPT_CAP);

    let long = observations_update(&content, &"y".repeat(OBSERVATIONS_CAP)).unwrap();
    let long = facts_update(&long, &"z".repeat(5000)).unwrap();
    assert!(excerpt_of(&long, false).chars().count() <= EXCERPT_CAP);
}

#[test]
fn sections_read_and_replace_between_markers() {
    assert_eq!(section("a[ x ]b", "[", "]").as_deref(), Some("x"));
    assert_eq!(section("a]x[b", "[", "]"), None);
    assert_eq!(replace_between("a[old]b", "[", "]", " new ").as_deref(), Some("a[\nnew\n]b"));
    assert_eq!(replace_between("a[old", "[", "]", "n"), None);
    let raw = skeleton("T", "i");
    assert_eq!(section(&raw, OBS_START, OBS_END).as_deref(), Some("(nothing observed yet)"));
}

#[test]
fn reset_restores_both_placeholders_and_keeps_notes() {
    let content = notes_update(&skeleton("T", "i"), "mine").unwrap();
    let content = facts_update(&content, "- facts").unwrap();
    let content = observations_update(&content, "- seen").unwrap();
    let reset = reset_auto(&content).unwrap();
    assert_eq!(reset, notes_update(&skeleton("T", "i"), "mine").unwrap());
    assert_eq!(reset_auto("nothing").unwrap_err(), "Missing Facts markers.");
    assert_eq!(notes_update("nothing", "x").unwrap_err(), "Missing the notes header.");
}

#[test]
fn facts_render_measured_percentages() {
    assert_eq!(pct(1, 3), Some(33));
    assert_eq!(pct(-1, 3), Some(-33));
    assert_eq!(pct(5, 0), None);
    let md = learner_facts_md(&facts_of(&counts(4, 3)));
    assert_eq!(
        md,
        "- Quiz answers recorded: 4 (75% correct; 75% when answered under 10s)\n- Flashcard grades: 0\n- Tutor turns: 0; explanation re-asks: 0\n"
    );
    let mut c = counts(0, 0);
    c.grill_answers = 2;
    c.grill_chars = 200;
    c.suggestions = 4;
    c.suggestions_approved = 1;
    assert_eq!(
        review_facts_md(&facts_of(&c)),
        "- Suggestions reviewed: 4 (25% approved)\n- Grill answers: 2 (avg 100 chars — moderate)\n- Assessments run: 0\n"
    );
}

#[test]
fn reflection_is_gated_below_the_event_threshold() {
    assert!(!reflection_due(true, 14));
    assert!(reflection_due(true, 15));
    assert!(!reflection_due(false, 100));
}

#[test]
fn new_files_get_the_right_skeleton() {
    assert!(initial_content("learner-profile.md").starts_with("# How you learn\n"));
    assert!(initial_content("review-profile.md").starts_with("# How you like reviews\n"));
}

#[test]
fn reflection_reports_why_it_did_not_run() {
    assert_eq!(reflection_skip(false, 100).as_deref(), Some("disabled"));
    assert_eq!(reflection_skip(true, 14).as_deref(), Some("skipped (14 new events, need 15)"));
    assert_eq!(reflection_skip(true, 15), None);
    assert_eq!(
        reflection_unavailable("offline"),
        "model unavailable — facts updated only (offline)"
    );
}

#[test]
fn reflection_request_has_no_tools_and_carries_the_digest() {
    let req = reflection_request("{\"quiz_attempts\":3}", "- e1", "- learns", "- reviews");
    assert!(req.allowed_tools.is_empty());
    assert_eq!(req.model.as_deref(), Some("haiku"));
    assert!(req.system_append.as_deref().unwrap().starts_with("You maintain two short"));
    assert!(req.system_append.as_deref().unwrap().ends_with("\"review_observations\":\"- ...\\n- ...\"}"));
    assert_eq!(
        req.prompt,
        "Measured digest (deterministic):\n{\"quiz_attempts\":3}\n\nMost recent events (numbers/labels only):\n- e1\n\nCurrent learner Observations:\n- learns\n\nCurrent review Observations:\n- reviews"
    );
}

#[test]
fn a_replaced_region_reads_back_as_the_new_text() {
    let content = format!("# P\n{OBS_START}\n- old\n{OBS_END}\n## Your notes\nmine\n");
    let updated = replace_between(&content, OBS_START, OBS_END, "  - new fact  \n").unwrap();
    assert_eq!(section(&updated, OBS_START, OBS_END).as_deref(), Some("- new fact"));
}
