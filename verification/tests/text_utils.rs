use research_harness::utils::text::{chunk_text, keywords_for_text, text_token_count, tokenize};

#[test]
fn tokenize_keeps_ascii_terms() {
    assert_eq!(
        tokenize("Research harness for local docs"),
        vec!["research", "harness", "local", "docs"]
    );
}

#[test]
fn tokenize_emits_cjk_bigrams_for_chinese_text() {
    assert_eq!(tokenize("殷周之变"), vec!["殷周", "周之", "之变"]);
}

#[test]
fn tokenize_supports_mixed_cjk_and_ascii() {
    assert_eq!(tokenize("OCR 识别殷周"), vec!["ocr", "识别", "别殷", "殷周"]);
}

#[test]
fn tokenize_keeps_a_lone_cjk_character() {
    assert_eq!(tokenize("a 殷 b2"), vec!["殷", "b2"]);
    assert_eq!(text_token_count("the quick fox"), 2);
}

#[test]
fn chunk_text_windows_overlap_and_trim() {
    assert_eq!(chunk_text("abcdefghij", 4, 1), vec!["abcd", "defg", "ghij"]);
    assert!(chunk_text("", 4, 1).is_empty());
    assert_eq!(chunk_text("ab   ", 3, 0), vec!["ab"]);
}

#[test]
fn keywords_rank_by_count_then_alphabetically() {
    assert_eq!(
        keywords_for_text("beta alpha beta gamma alpha beta", 2),
        vec!["beta", "alpha"]
    );
    let all = keywords_for_text("zeta eta zeta", 8);
    assert_eq!(all, vec!["zeta", "eta"]);
}

#[test]
fn tokens_of_texts_joined_by_a_space_concatenate() {
    let a = "Ritual 殷周";
    let b = "之变 reform";
    let mut expected = tokenize(a);
    expected.extend(tokenize(b));
    assert_eq!(tokenize(&format!("{a} {b}")), expected);
    assert_eq!(tokenize("殷周 之变"), vec!["殷周", "之变"]);
}

#[test]
fn one_window_needs_no_overlap_rule() {
    assert_eq!(chunk_text("  abc ", 6, 6), vec!["abc"]);
    assert_eq!(chunk_text("abc", 3, 9), vec!["abc"]);
    assert!(chunk_text("", 0, 0).is_empty());
}
