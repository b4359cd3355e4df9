use research_harness::parser::structure::{detect_cjk_heading_level, detect_heading, StructureParser};

#[test]
fn detects_cjk_chapter_headings() {
    assert_eq!(detect_cjk_heading_level("第一章 殷周之变"), Some(2));
    assert_eq!(detect_cjk_heading_level("第七节 祭祀"), Some(3));
    assert_eq!(detect_cjk_heading_level("第3卷 新秩序"), Some(1));
}

#[test]
fn detect_heading_uses_cjk_heuristic() {
    let heading = detect_heading("第一章 殷周之变", "application/pdf");
    assert_eq!(heading, Some(("第一章 殷周之变".to_string(), 2)));
}

#[test]
fn detect_heading_rejects_short_ascii_ocr_noise() {
    assert_eq!(detect_heading("BY", "application/pdf"), None);
    assert_eq!(detect_heading("IV. OK203", "application/pdf"), None);
    assert_eq!(detect_heading("REM: SRA", "application/pdf"), None);
}

#[test]
fn parse_links_each_section_to_its_nearest_shallower_parent() {
    let parser = StructureParser::new();
    let sections = parser.parse(
        "doc-1",
        "Demo",
        "text/markdown",
        "# Demo\n\nintro\n\n## Core Idea\n\nbody\n\n### Detail\n\nmore\n\n## Second\n\nrest\n",
    );
    let headings: Vec<&str> = sections.iter().map(|s| s.heading.as_str()).collect();
    assert_eq!(headings, vec!["Demo", "Core Idea", "Detail", "Second"]);
    assert_eq!(sections[0].parent_id, None);
    assert_eq!(sections[1].parent_id.as_deref(), Some(sections[0].id.as_str()));
    assert_eq!(sections[2].parent_id.as_deref(), Some(sections[1].id.as_str()));
    assert_eq!(sections[3].parent_id.as_deref(), Some(sections[0].id.as_str()));
    for s in &sections {
        assert_eq!(s.document_id, "doc-1");
        assert_eq!(s.id.len(), 36);
        assert!(s.chunk_ids.is_empty());
    }
}
