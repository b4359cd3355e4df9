use research_harness::ingest::pdf::{
    clean_extracted_text, denoise_body_line, extract_text, finish_ocr_extraction,
    is_ascii_noise_token, is_layout_noise_line, is_readable_enough, join_ocr_pages,
    looks_like_image_only_pdf, ocr_max_pages_from, ocr_text_counts,
    strip_ascii_garbage_prefix, tesseract_lang_from_listing, Extraction,
};

#[test]
fn clean_extracted_text_keeps_line_boundaries_but_normalizes_spacing() {
    let cleaned = clean_extracted_text("  第一章   变革 \n\n  殷周  之变   ");
    assert_eq!(cleaned, "第一章 变革\n殷周 之变");
}

#[test]
fn clean_extracted_text_drops_layout_noise_lines() {
    let cleaned = clean_extracted_text(
        "iv ii: 股周之变与华夏新生\n后网 H10 第二层平面图\n第一章 殷周之变\n正文保留",
    );
    assert_eq!(cleaned, "第一章 殷周之变\n正文保留");
}

#[test]
fn clean_extracted_text_drops_running_headers_and_long_ascii_noise_lines() {
    let cleaned =
        clean_extracted_text("10 殷周之变与华夏新生\nSHRMA ERB NARA. (RIC) SRBCM, ALBA\n正文保留");
    assert_eq!(cleaned, "正文保留");
}

#[test]
fn readable_text_accepts_cjk_content() {
    let text = "翦商讨论殷周之变与华夏新生。".repeat(20);
    assert!(is_readable_enough(&text));
}

#[test]
fn readable_text_rejects_binary_like_noise() {
    let text = "%PDF-1.6 JPXDecode stream endobj qGPu >=h a'@TR;".repeat(20);
    assert!(!is_readable_enough(&text));
}

#[test]
fn image_only_pdf_detection_flags_image_stream_markers() {
    let bytes = br#"%PDF-1.6 /Subtype/Image /Filter/JPXDecode /Subtype/Image"#;
    assert!(looks_like_image_only_pdf(bytes));
}

#[test]
fn ocr_max_pages_uses_default_when_env_missing() {
    assert_eq!(ocr_max_pages_from(None), 24);
}

#[test]
fn layout_noise_rule_keeps_real_body_text() {
    assert!(!is_layout_noise_line("周人对商朝人祭制度进行了系统性的改造。"));
    assert!(is_layout_noise_line("BATH T 0"));
    assert!(is_layout_noise_line("后网 H10 第二层平面图"));
}

#[test]
fn denoise_body_line_removes_short_ascii_fragments_in_cjk_prose() {
    let cleaned = denoise_body_line("作者认为人祭的消亡和周灭商有直接关系 HEART 19 人 引发了华夏的新生");
    assert_eq!(cleaned, "作者认为人祭的消亡和周灭商有直接关系 19 人 引发了华夏的新生");
}

#[test]
fn denoise_body_line_keeps_latin_when_line_is_not_cjk_body() {
    let cleaned = denoise_body_line("NotebookLM research harness OCR");
    assert_eq!(cleaned, "NotebookLM research harness OCR");
}

#[test]
fn denoise_body_line_strips_ascii_prefix_from_cjk_line() {
    let cleaned = denoise_body_line("BFE ET ATR ASR i. AE, 就是杀人向鬼神献祭。");
    assert_eq!(cleaned, "就是杀人向鬼神献祭。");
}

#[test]
fn ascii_noise_token_rule_targets_short_ocr_garbage() {
    assert!(is_ascii_noise_token("HEART"));
    assert!(is_ascii_noise_token("H10"));
    assert!(!is_ascii_noise_token("NotebookLM"));
    assert!(!is_ascii_noise_token("2022"));
}

#[test]
fn strip_ascii_garbage_prefix_keeps_real_cjk_body() {
    let cleaned = strip_ascii_garbage_prefix("Ext (Bid RA) PARA EAE 并不符合当时的规则。");
    assert_eq!(cleaned, "并不符合当时的规则。");
}

#[test]
fn ocr_counts_are_taken_over_the_cleaned_text() {
    let c = ocr_text_counts("周灭商");
    assert_eq!((c.cjk, c.ascii_alpha, c.punctuation, c.length), (3, 0, 0, 3));
    assert_eq!(ocr_text_counts("   ").length, 0);
    let c = ocr_text_counts("  殷周之变，  ");
    assert_eq!((c.cjk, c.ascii_alpha, c.punctuation, c.length), (4, 0, 0, 5));
}

#[test]
fn ocr_pages_are_cleaned_and_joined_with_blank_lines() {
    let pages = vec!["  第一页  正文 ".to_string(), "   ".to_string(), "第二页".to_string()];
    assert_eq!(join_ocr_pages(&pages), Some("第一页 正文\n\n第二页".to_string()));
    assert_eq!(join_ocr_pages(&vec![" ".to_string()]), None);
}

#[test]
fn tesseract_language_prefers_simplified_chinese() {
    assert_eq!(
        tesseract_lang_from_listing("List of available languages (3):\neng\n chi_sim \nosd"),
        Some("chi_sim+eng".to_string())
    );
    assert_eq!(tesseract_lang_from_listing("eng\nosd"), Some("eng".to_string()));
    assert_eq!(tesseract_lang_from_listing("osd"), None);
}

#[test]
fn ocr_page_cap_reads_positive_integers_only() {
    assert_eq!(ocr_max_pages_from(Some("7".into())), 7);
    assert_eq!(ocr_max_pages_from(Some("+12".into())), 12);
    assert_eq!(ocr_max_pages_from(Some("0".into())), 24);
    assert_eq!(ocr_max_pages_from(Some("seven".into())), 24);
    assert_eq!(ocr_max_pages_from(Some("99999999999999999999999".into())), 24);
}

#[test]
fn pdf_text_is_taken_from_the_extractor_when_readable() {
    let body = "翦商讨论殷周之变与华夏新生。".repeat(20);
    match extract_text(b"%PDF-1.4 garbage", Some(body.clone())).unwrap() {
        Extraction::Text(t) => assert_eq!(t, body),
        Extraction::NeedsOcr => panic!("expected text"),
    }
    assert!(matches!(
        extract_text(b"%PDF-1.6 /Subtype/Image /Filter/JPXDecode", None).unwrap(),
        Extraction::NeedsOcr
    ));
    let err = extract_text(b"%PDF-1.4", None).err().unwrap();
    assert!(err.message().starts_with("ingest error: pdf extraction produced no readable text; use a text-based PDF"));
    assert!(finish_ocr_extraction(None).is_err());
    assert_eq!(finish_ocr_extraction(Some(body.clone())).unwrap(), body);
}
