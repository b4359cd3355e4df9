use research_harness::domain::section::Section;
use research_harness::ingest::refine::{
    looks_like_numbered_cjk_heading, normalize_pdf_section, refine_pdf_sections,
    trim_pdf_section_content,
};

fn section(heading: &str, content: &str) -> Section {
    Section {
        id: format!("id-{heading}"),
        document_id: "doc-1".into(),
        heading: heading.into(),
        level: 1,
        ordinal_path: vec![1],
        parent_id: None,
        content: content.into(),
        chunk_ids: Vec::new(),
    }
}

#[test]
fn numbered_cjk_heading_matches_book_chapters() {
    assert!(looks_like_numbered_cjk_heading("第一章 新石器时代"));
    assert!(looks_like_numbered_cjk_heading("第3卷 周人崛起"));
    assert!(!looks_like_numbered_cjk_heading("代序：我们陌生的形象"));
}

#[test]
fn refine_pdf_sections_drops_front_matter_before_first_chapter() {
    let refined = refine_pdf_sections(vec![
        section("ISBN 978-7-5598-5253-3", "中国版本图书馆CIP数据"),
        section("REM: SRA", "出版社信息"),
        section("第一章 新石器时代的社会升级", "正文第一章"),
        section("第二章 王权与祭祀", "正文第二章"),
    ]);

    assert_eq!(refined.len(), 2);
    assert_eq!(refined[0].heading, "第一章 新石器时代的社会升级");
    assert_eq!(refined[1].heading, "第二章 王权与祭祀");
}

#[test]
fn normalize_pdf_section_relabels_noisy_heading_from_embedded_heading() {
    let normalized =
        normalize_pdf_section(section("FE LARA IN HE", "引子 3\n正文开始\n更多正文")).unwrap();

    assert_eq!(normalized.heading, "引子");
    assert!(normalized.content.starts_with("正文开始"));
}

#[test]
fn normalize_pdf_section_drops_toc_sections() {
    let normalized =
        normalize_pdf_section(section("第一章 新石器时代 23", "第二章 王权 35\n第三章 商朝 51"));

    assert!(normalized.is_none());
}

#[test]
fn refine_pdf_sections_merges_adjacent_same_heading_sections() {
    let refined = refine_pdf_sections(vec![
        section("ISBN 978-7-5598-5253-3", "中国版本图书馆CIP数据"),
        section("引子", "第一段"),
        section("引子", "第二段"),
        section("第一章 殷周之变", "第三段"),
    ]);

    assert_eq!(refined.len(), 1);
    assert_eq!(refined[0].heading, "第一章 殷周之变");
    assert_eq!(refined[0].content, "第三段");
}

#[test]
fn refine_pdf_sections_merges_adjacent_same_heading_when_no_chapter_boundary_exists() {
    let refined = refine_pdf_sections(vec![
        section("引子", "第一段"),
        section("引子", "第二段"),
        section("代序", "第三段"),
    ]);

    assert_eq!(refined.len(), 2);
    assert_eq!(refined[0].heading, "引子");
    assert_eq!(refined[0].content, "第一段\n第二段");
}

#[test]
fn refine_pdf_sections_drops_fragmented_cover_like_section() {
    let refined = refine_pdf_sections(vec![
        section(
            "某书名",
            "s\ni\n°\nBY\n: 向\n李之\nmE\n| 与\n@@华\n夏\n新\n生\n广西师范大学出版社",
        ),
        section("代序", "这是一段正常正文，讨论本书的问题意识和结构。"),
    ]);

    assert_eq!(refined.len(), 1);
    assert_eq!(refined[0].heading, "代序");
}

#[test]
fn refine_pdf_sections_drops_cover_metadata_section_after_stronger_ocr() {
    let refined = refine_pdf_sections(vec![
        section(
            "翦商：殷周之变与华夏新生",
            "咱\n>\n| _ 一\n一上一\n周\n李 之\n硕 变\nx\n新\n生\n前商 : 扔周之变与华夏新生 / 李硕著. -- 桂林 :\n广西师范大学出版社, 2022.10\n1.0: 0. O#- 0. @文化史一研究-中国",
        ),
        section("代序", "这是一段正常正文，讨论本书的问题意识和结构。"),
    ]);

    assert_eq!(refined.len(), 1);
    assert_eq!(refined[0].heading, "代序");
}

#[test]
fn trim_pdf_section_content_drops_toc_tail_and_leading_noise() {
    let trimmed = trim_pdf_section_content("al\n正文第一段\n目 录\n代序 : 我们陌生的形象 i");

    assert_eq!(trimmed, "正文第一段");
}

#[test]
fn normalize_pdf_section_recovers_intro_heading_from_body() {
    let normalized = normalize_pdf_section(section(
        "尾声",
        "al\n为此, 须先从上古时代的人你说起。\n下面，先来复原一场急商最晚期的人佘仪式。\n股商最后的人祭",
    ))
    .unwrap();

    assert_eq!(normalized.heading, "引子");
    assert!(normalized.content.starts_with("为此"));
}

#[test]
fn merged_sections_never_repeat_a_mergeable_heading() {
    let a = "这是第一段正常正文，讨论本书的问题意识。";
    let b = "这是第二段正常正文，继续讨论本书的结构。";
    let refined = refine_pdf_sections(vec![
        section("第一章 殷周之变", a),
        section("第一章 殷周之变", b),
        section("第二章 王权", b),
        section("第二章 王权", a),
    ]);
    assert_eq!(refined.len(), 2);
    assert_eq!(refined[0].content, format!("{a}\n{b}"));
    assert_eq!(refined[1].content, format!("{b}\n{a}"));
    assert_eq!(refined[1].heading, "第二章 王权");
}
