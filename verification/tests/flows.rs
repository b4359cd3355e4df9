use research_harness::app::{is_summary_query, plan_report, provider_choice, sanitize_file_name, ProviderChoice};
use research_harness::cli::ReportCommand;
use research_harness::config::{LlmConfig, OpenAiConfig};
use research_harness::domain::document::Document;
use research_harness::domain::timestamp::Timestamp;
use research_harness::storage::workspace_store::{asset_name, sanitize_file_name as asset_safe_name, WorkspaceCorpus};
use research_harness::synthesis::synthesizer::ReportKind;

#[test]
fn summary_query_detection_covers_chinese_and_english() {
    assert!(is_summary_query("这本书的核心主题是什么？"));
    assert!(is_summary_query("What is this document about?"));
    assert!(!is_summary_query("殷墟人祭坑有多少层？"));
}

#[test]
fn question_slugs_are_lowercase_dashed_and_bounded() {
    assert_eq!(sanitize_file_name("What is the core idea?"), "what-is-the-core-idea");
    assert_eq!(sanitize_file_name("--A  b--"), "a-b");
    assert_eq!(sanitize_file_name("这本书讲什么"), "query");
    assert_eq!(sanitize_file_name(&"x".repeat(60)).len(), 48);
}

#[test]
fn asset_names_keep_only_ascii_letters_and_digits() {
    assert_eq!(asset_safe_name("my file.v2"), "my-file-v2");
    assert_eq!(asset_name("id1", "book 1", "pdf"), "id1-book-1.pdf");
}

fn llm(provider: &str) -> LlmConfig {
    LlmConfig {
        provider: provider.into(),
        model: "mock-research".into(),
        timeout_secs: 30,
        openai: OpenAiConfig { base_url: "https://api.openai.com/v1".into(), api_key_env: "OPENAI_API_KEY".into() },
    }
}

#[test]
fn provider_is_openai_only_when_named() {
    assert_eq!(provider_choice(&llm("openai")), ProviderChoice::OpenAi);
    assert_eq!(provider_choice(&llm("mock")), ProviderChoice::Mock);
    assert_eq!(provider_choice(&llm("OpenAI")), ProviderChoice::Mock);
}

#[test]
fn reports_need_documents() {
    let empty = WorkspaceCorpus { documents: vec![], sections: vec![], chunks: vec![] };
    let err = plan_report(&empty, ReportCommand::Summary).err().unwrap();
    assert_eq!(
        err.message(),
        "workspace error: active workspace has no documents; run `cargo run -- add <path>` first"
    );
}

#[test]
fn report_plan_maps_commands_to_kinds_and_slugs() {
    let corpus = WorkspaceCorpus {
        documents: vec![Document {
            id: "d".into(),
            title: "t".into(),
            source_path: "s".into(),
            stored_path: "p".into(),
            media_type: "text/plain".into(),
            imported_at: Timestamp { secs: 0, nanos: 0 },
            section_ids: vec![],
            chunk_ids: vec![],
        }],
        sections: vec![],
        chunks: vec![],
    };
    let (kind, slug) = plan_report(&corpus, ReportCommand::Compare).ok().unwrap();
    assert_eq!(kind, ReportKind::Compare);
    assert_eq!(slug, "compare");
    let (kind, slug) = plan_report(&corpus, ReportCommand::Outline).ok().unwrap();
    assert_eq!(kind, ReportKind::Outline);
    assert_eq!(slug, "outline");
}
