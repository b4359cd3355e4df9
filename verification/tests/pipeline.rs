use research_harness::app::{ask_hits, plan_report, sanitize_file_name};
use research_harness::cli::ReportCommand;
use research_harness::config::{AppConfig, AppSettings, IndexConfig, LlmConfig, OpenAiConfig};
use research_harness::index::simple_index::{SimpleIndex, SimpleIndexData};
use research_harness::ingest::pdf::Extraction;
use research_harness::ingest::DocumentIngestor;
use research_harness::llm::mock::MockLlmProvider;
use research_harness::retrieval::retriever::Retriever;
use research_harness::storage::workspace_store::{WorkspaceCorpus, WorkspaceStore};
use research_harness::synthesis::synthesizer::{ReportKind, Synthesizer};

fn config() -> AppConfig {
    AppConfig {
        app: AppSettings {
            name: "research-harness".into(),
            workspace_root: "/srv/rh/workspace".into(),
            active_workspace_file: "/srv/rh/.research-harness/active-workspace".into(),
        },
        llm: LlmConfig {
            provider: "mock".into(),
            model: "mock-research".into(),
            timeout_secs: 30,
            openai: OpenAiConfig {
                base_url: "https://api.openai.com/v1".into(),
                api_key_env: "OPENAI_API_KEY".into(),
            },
        },
        index: IndexConfig { chunk_size: 200, chunk_overlap: 40, embedding_dimensions: 16, top_k: 4 },
    }
}

#[test]
fn add_and_ask_flow_runs_in_memory() {
    let config = config();
    assert!(config.validate().is_ok());
    let store = WorkspaceStore::new(config.clone());
    let workspace = store.new_workspace("demo");
    assert_eq!(workspace.name, "demo");
    assert_eq!(workspace.root_dir, "/srv/rh/workspace/demo");
    assert!(workspace.document_ids.is_empty());

    let bytes = b"# Demo\n\n## Core Idea\n\nResearch Harness helps inspect documents with citations.\n";
    let ingestor = DocumentIngestor::new(config.index);
    let (media_type, extraction) = ingestor.extract("examples/demo.md", bytes, None).unwrap();
    assert_eq!(media_type, "text/markdown");
    let text = match extraction {
        Extraction::Text(t) => t,
        Extraction::NeedsOcr => panic!("markdown never needs OCR"),
    };
    let added = ingestor.assemble("examples/demo.md", bytes.to_vec(), media_type, &text, &workspace);
    assert_eq!(added.document.title, "demo");
    assert_eq!(added.document.stored_path, "/srv/rh/workspace/demo/documents");
    assert_eq!(added.original_extension, "md");
    assert_eq!(added.original_file_name, "demo.md");
    assert_eq!(added.sections.len(), 1);
    assert_eq!(added.sections[0].heading, "Core Idea");
    assert_eq!(added.chunks.len(), 1);
    assert_eq!(added.document.chunk_ids, vec![added.chunks[0].id.clone()]);
    assert_eq!(added.sections[0].chunk_ids, vec![added.chunks[0].id.clone()]);

    let retriever = Retriever::new(SimpleIndex::new(config.index), config.index.top_k);
    let fresh = SimpleIndex::new(config.index).build(&added.chunks);
    let index = retriever.rebuild_index(SimpleIndexData::new(), fresh);
    let corpus = WorkspaceCorpus {
        documents: vec![added.document.clone()],
        sections: added.sections.clone(),
        chunks: added.chunks.clone(),
    };

    let query = "What is the core idea?";
    let hits = ask_hits(&retriever, query, config.index.top_k, &index, &corpus).unwrap();
    assert_eq!(hits.len(), 1);
    let synthesizer = Synthesizer::new();
    let prompt = synthesizer.answer_prompt(&workspace, query, &hits);
    let response = MockLlmProvider::new(config.llm.model.clone()).respond(&prompt);
    assert_eq!(
        response.summary,
        "Workspace demo is primarily about: Research Harness helps inspect documents with citations."
    );
    let answer = synthesizer.answer_text(query, &hits, &response);
    assert!(answer.starts_with("Question: What is the core idea?\n\nOriginal Content:\n- [demo / Core Idea]"));
    assert!(answer.ends_with("Citations:\n- demo / Core Idea: Research Harness helps inspect documents with citations."));
    assert_eq!(sanitize_file_name(query), "what-is-the-core-idea");
    assert_eq!(
        store.output_file(&workspace, "ask", &sanitize_file_name(query)),
        "/srv/rh/workspace/demo/outputs/ask-what-is-the-core-idea.md"
    );

    let (kind, slug) = plan_report(&corpus, ReportCommand::Summary).unwrap();
    assert_eq!(kind, ReportKind::Summary);
    let report_prompt = synthesizer.report_prompt(&workspace, &corpus, kind);
    let report = synthesizer.report_text(
        &workspace,
        &corpus,
        kind,
        &MockLlmProvider::new(config.llm.model.clone()).respond(&report_prompt),
    );
    assert!(report.starts_with("Workspace: demo\nReport: Summary\n\nSystem Summary:\nWorkspace demo is primarily about:"));
    assert!(report.ends_with("Citation Map:\n- demo / Core Idea"));
    assert_eq!(slug, "summary");
}

#[test]
fn summary_questions_pull_in_opening_sections() {
    let config = config();
    let store = WorkspaceStore::new(config.clone());
    let workspace = store.new_workspace("book");
    let body_one = "殷周之变与华夏新生".repeat(12);
    let body_two = "周人崛起与宗教变革".repeat(12);
    let text = format!("# 书\n\n## 第一章\n\n{body_one}\n\n## 第二章\n\n{body_two}\n");
    let ingestor = DocumentIngestor::new(config.index);
    let added = ingestor.assemble("book.md", text.as_bytes().to_vec(), "text/markdown".into(), &text, &workspace);
    assert_eq!(added.sections.len(), 2);
    let retriever = Retriever::new(SimpleIndex::new(config.index), 1);
    // Only the second chapter's chunk is in the index, so retrieval alone finds it.
    let second = added.chunks.iter().filter(|c| c.section_id == added.sections[1].id).cloned().collect::<Vec<_>>();
    let index = SimpleIndex::new(config.index).build(&second);
    let corpus = WorkspaceCorpus {
        documents: vec![added.document.clone()],
        sections: added.sections.clone(),
        chunks: added.chunks.clone(),
    };
    let plain = ask_hits(&retriever, "周人如何崛起？", 4, &index, &corpus).unwrap();
    assert_eq!(plain.len(), 1);
    let summary = ask_hits(&retriever, "这本书的核心主题是什么？", 4, &index, &corpus).unwrap();
    assert_eq!(summary.len(), 2);
    assert_eq!(summary[0].section.id, added.sections[0].id);
    assert_eq!(summary[1].section.id, added.sections[1].id);
}
