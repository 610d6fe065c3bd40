use review_helper::ingest::{
    is_known_root_file_name, is_markdown_extension, same_ignoring_ascii_case, DocSet, PER_FILE_CAP, TOTAL_CAP,
};

#[test]
fn known_root_files_match_ignoring_ascii_case() {
    assert!(is_known_root_file_name("README.md"));
    assert!(is_known_root_file_name("readme.MD"));
    assert!(is_known_root_file_name("Roadmap"));
    assert!(is_known_root_file_name("changelog.md"));
    assert!(!is_known_root_file_name("ignore.txt"));
    assert!(!is_known_root_file_name("README.md.bak"));
    assert!(!is_known_root_file_name(""));
    assert!(same_ignoring_ascii_case("ÄbC", "Äbc"));
    assert!(!same_ignoring_ascii_case("äbc", "Äbc"));
}

#[test]
fn markdown_extension_ignores_case() {
    assert!(is_markdown_extension("md"));
    assert!(is_markdown_extension("MD"));
    assert!(!is_markdown_extension("mdx"));
    assert!(!is_markdown_extension("txt"));
}

#[test]
fn collects_root_and_subdir_docs() {
    // The clone's root holds PLANNING.md, README.md and ignore.txt; .planning/ holds DECISIONS.md.
    let mut docs = DocSet::new();
    for (name, content) in [("PLANNING.md", "Phase 1: build auth."), ("README.md", "# my app"), ("ignore.txt", "not a doc")] {
        if is_known_root_file_name(name) {
            docs.add(name, content);
        }
    }
    if is_markdown_extension("md") {
        docs.add(".planning/DECISIONS.md", "Use SQLite.");
    }
    let block = docs.block();
    assert_eq!(
        block,
        "## Existing planning material found in the repo\n\nAbsorb and build on this — do not discard or contradict it.\n\
         \n### .planning/DECISIONS.md\nUse SQLite.\n\
         \n### PLANNING.md\nPhase 1: build auth.\n\
         \n### README.md\n# my app\n"
    );
    assert!(block.contains("### PLANNING.md"));
    assert!(block.contains("Phase 1: build auth."));
    assert!(block.contains(".planning/DECISIONS.md"));
    assert!(block.contains("Use SQLite."));
    assert!(!block.contains("not a doc"));
}

#[test]
fn empty_when_no_docs() {
    // Only "main.rs" is present: it is not planning material, so nothing is taken.
    let mut docs = DocSet::new();
    if is_known_root_file_name("main.rs") {
        docs.add("main.rs", "fn main() {}");
    }
    assert!(docs.block().is_empty());
}

#[test]
fn equal_names_keep_their_order() {
    let mut docs = DocSet::new();
    docs.add("b", "first b");
    docs.add("a", "an a");
    docs.add("b", "second b");
    assert_eq!(
        docs.block(),
        "## Existing planning material found in the repo\n\nAbsorb and build on this — do not discard or contradict it.\n\
         \n### a\nan a\n\n### b\nfirst b\n\n### b\nsecond b\n"
    );
}

#[test]
fn each_doc_is_capped_and_the_total_stops_further_docs() {
    let mut docs = DocSet::new();
    let big = "é".repeat(PER_FILE_CAP + 10);
    docs.add("README.md", &big);
    assert_eq!(docs.found[0].1.chars().count(), PER_FILE_CAP);
    assert_eq!(docs.total, 2 * PER_FILE_CAP);
    docs.add("TODO.md", &big);
    assert_eq!(docs.total, 4 * PER_FILE_CAP);
    assert!(docs.is_full());
    assert!(docs.total >= TOTAL_CAP);
    docs.add("ROADMAP.md", "late");
    assert_eq!(docs.found.len(), 2);
    assert_eq!(docs.total, 4 * PER_FILE_CAP);
}

#[test]
fn block_does_not_depend_on_discovery_order() {
    let docs_in = |order: &[(&str, &str)]| {
        let mut d = DocSet::new();
        for (n, c) in order {
            d.add(n, c);
        }
        d.block()
    };
    let a = docs_in(&[("README.md", "r"), ("docs/x.md", "x"), ("TODO", "t"), (".planning/p.md", "p")]);
    let b = docs_in(&[(".planning/p.md", "p"), ("TODO", "t"), ("README.md", "r"), ("docs/x.md", "x")]);
    assert_eq!(a, b);
    assert!(a.find("### .planning/p.md").unwrap() < a.find("### README.md").unwrap());
    assert!(a.find("### README.md").unwrap() < a.find("### TODO").unwrap());
    assert!(a.find("### TODO").unwrap() < a.find("### docs/x.md").unwrap());
}
