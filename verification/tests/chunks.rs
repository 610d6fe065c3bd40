use review_helper::chunks::{chunk_document, CHUNK_OVERLAP};

fn corpus() -> String {
    let mut doc = String::new();
    doc.push_str(&format!("# Photosynthesis\n\n{} The Calvin cycle fixes carbon dioxide into sugar using ATP and NADPH inside the stroma.\n\n", "Light reactions split water in the thylakoid membranes. ".repeat(30)));
    doc.push_str(&format!("# Cellular respiration\n\n{} Glycolysis happens in the cytosol and yields pyruvate.\n\n", "Mitochondria produce ATP through oxidative phosphorylation. ".repeat(30)));
    doc.push_str(&format!("# Genetics basics\n\n{} XK-42b is the mutant allele identifier used in the worked example.\n\n", "Mendel crossed pea plants and tracked dominant and recessive traits. ".repeat(30)));
    doc
}

#[test]
fn chunks_carry_headers_and_overlap() {
    let chunks = chunk_document("bio.pdf", &corpus());
    assert!(chunks.len() > 3, "expected multiple chunks, got {}", chunks.len());
    assert!(chunks[0].header.starts_with("bio.pdf › "), "contextual header present: {}", chunks[0].header);
    assert_eq!(chunks[0].chunk_idx, 0);
    assert!(chunks[0].header.ends_with(&format!("(1/{})", chunks.iter().filter(|c| c.section_idx == 0).count())));
    // Every later chunk of a section opens with the tail of the one before.
    for w in chunks.windows(2) {
        if w[1].section_idx == w[0].section_idx {
            let prev_tail: String = {
                let all: Vec<char> = w[0].body.chars().collect();
                let start = all.len().saturating_sub(CHUNK_OVERLAP);
                all[start..].iter().collect()
            };
            assert!(w[1].body.starts_with(&prev_tail), "overlap missing after chunk {}", w[0].chunk_idx);
        }
    }
}

#[test]
fn untitled_sections_are_numbered_and_blank_text_has_no_chunks() {
    assert!(chunk_document("t", "   \n ").is_empty());
    let chunks = chunk_document("notes.txt", "just a few words");
    assert_eq!(chunks.len(), 1);
    assert_eq!(chunks[0].section_path, "Part 1");
    assert_eq!(chunks[0].header, "notes.txt › Part 1 (1/1)");
    assert_eq!(chunks[0].body, "just a few words");
}
