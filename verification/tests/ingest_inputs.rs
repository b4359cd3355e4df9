use research_harness::ingest::{markdown, text};
use research_harness::utils::text::{detect_media_type, file_stem_or_name};

#[test]
fn media_type_follows_the_extension_case_insensitively() {
    assert_eq!(detect_media_type("notes/Chapter.MD").unwrap(), "text/markdown");
    assert_eq!(detect_media_type("a.markdown").unwrap(), "text/markdown");
    assert_eq!(detect_media_type("a.txt").unwrap(), "text/plain");
    assert_eq!(detect_media_type("/books/jian-shang.Pdf").unwrap(), "application/pdf");
    assert_eq!(
        detect_media_type("slides.PPTX").err().unwrap().message(),
        "ingest error: unsupported file extension: pptx"
    );
    assert_eq!(
        detect_media_type("README").err().unwrap().message(),
        "ingest error: file has no extension: README"
    );
}

#[test]
fn titles_come_from_the_file_stem() {
    assert_eq!(file_stem_or_name("/x/y/report.final.pdf"), "report.final");
    assert_eq!(file_stem_or_name("examples/demo.md"), "demo");
    assert_eq!(file_stem_or_name("/"), "document");
}

#[test]
fn text_bytes_are_decoded_with_replacement() {
    assert_eq!(text::extract_text(&[0x61, 0xff, 0x62]).unwrap(), "a\u{FFFD}b");
    assert_eq!(markdown::extract_text("# 标题\n正文".as_bytes()).unwrap(), "# 标题\n正文");
}

#[test]
fn markdown_read_from_a_string_gives_it_back() {
    let s = "# Demo\n\n## Core Idea\n\n殷周之变 with citations.\r\n";
    assert_eq!(markdown::extract_text(s.as_bytes()).unwrap(), s);
    assert_eq!(text::extract_text(s.as_bytes()).unwrap(), s);
}
