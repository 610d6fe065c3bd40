use review_helper::records::{
    append_audit, check_feature, check_project_kind, check_project_name, key, valid_feature_status, AuditEntry,
    MAX_AUDIT_ENTRIES,
};

#[test]
fn rejects_bad_input() {
    assert_eq!(check_project_name("   ").unwrap_err(), "Project name cannot be empty.");
    assert_eq!(check_project_name("  Mine ").unwrap(), "Mine");
    assert!(check_project_kind("weird").is_err());
    assert!(check_project_kind("new").is_ok());
    assert!(check_project_kind("imported").is_ok());
}

#[test]
fn features_are_checked_and_trimmed() {
    assert_eq!(check_feature(" ", "", "text").unwrap_err(), "A feature needs a title.");
    assert_eq!(check_feature(&"t".repeat(201), "", "text").unwrap_err(), "Title is too long (max 200 characters).");
    assert_eq!(
        check_feature("ok", &"é".repeat(5001), "text").unwrap_err(),
        "Detail is too long (max 10000 characters)."
    );
    let f = check_feature("  Dark mode ", " please ", "audio").unwrap();
    assert_eq!((f.title.as_str(), f.detail.as_str(), f.source), ("Dark mode", "please", "audio"));
    assert_eq!(check_feature("x", "", "carrier pigeon").unwrap().source, "text");
    assert!(valid_feature_status("triaged"));
    assert!(!valid_feature_status("done"));
}

#[test]
fn audit_trail_keeps_the_newest_fifty() {
    assert_eq!(key(42), "audit:42");
    let mut trail: Vec<AuditEntry> = Vec::new();
    for v in 1..=60 {
        append_audit(&mut trail, AuditEntry { version: v, source: "update".into(), at: format!("t{v}") });
    }
    assert_eq!(trail.len(), MAX_AUDIT_ENTRIES);
    assert_eq!(trail[0].version, 11);
    assert_eq!(trail.last().unwrap().version, 60);
}
