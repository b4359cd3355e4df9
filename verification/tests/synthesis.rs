use research_harness::domain::chunk::Chunk;
use research_harness::domain::document::Document;
use research_harness::domain::section::Section;
use research_harness::domain::timestamp::Timestamp;
use research_harness::domain::workspace::Workspace;
use research_harness::index::simple_index::SimpleIndex;
use research_harness::config::IndexConfig;
use research_harness::llm::mock::MockLlmProvider;
use research_harness::llm::openai::{chat_endpoint, check_status, missing_key_error, parse_reply, reply_from_choice, user_message};
use research_harness::llm::provider::{LlmResponse, PromptContext};
use research_harness::retrieval::retriever::Retriever;
use research_harness::storage::workspace_store::WorkspaceCorpus;
use research_harness::synthesis::synthesizer::{every_section_has_document, list_original_content, ReportKind, Synthesizer};

fn workspace() -> Workspace {
    Workspace {
        name: "demo".into(),
        root_dir: "/tmp/ws/demo".into(),
        created_at: Timestamp { secs: 0, nanos: 0 },
        document_ids: vec![],
    }
}

fn corpus() -> WorkspaceCorpus {
    WorkspaceCorpus {
        documents: vec![Document {
            id: "doc-1".into(),
            title: "Demo".into(),
            source_path: "examples/demo.md".into(),
            stored_path: "/tmp/ws/demo/documents".into(),
            media_type: "text/markdown".into(),
            imported_at: Timestamp { secs: 0, nanos: 0 },
            section_ids: vec!["s1".into()],
            chunk_ids: vec!["c1".into()],
        }],
        sections: vec![Section {
            id: "s1".into(),
            document_id: "doc-1".into(),
            heading: "Core Idea".into(),
            level: 2,
            ordinal_path: vec![1, 1],
            parent_id: None,
            content: "Research Harness helps inspect documents with citations.".into(),
            chunk_ids: vec!["c1".into()],
        }],
        chunks: vec![Chunk {
            id: "c1".into(),
            document_id: "doc-1".into(),
            section_id: "s1".into(),
            ordinal: 0,
            text: "Research Harness helps inspect documents with citations.".into(),
            token_count: 6,
            keywords: vec![],
        }],
    }
}

#[test]
fn mock_provider_quotes_the_first_four_packets_without_labels() {
    let mock = MockLlmProvider::new("mock-research".into());
    let prompt = PromptContext {
        workspace_name: "demo".into(),
        objective: "Answer".into(),
        evidence: vec![
            "[A :: B]\nline one\nline two".into(),
            "[C :: D]\nthree".into(),
            "[E :: F]".into(),
            "[G :: H]\nfour".into(),
            "[I :: J]\nfive".into(),
        ],
    };
    let r = mock.respond(&prompt);
    assert_eq!(r.summary, "Workspace demo is primarily about: line one line two | three |  | four");
    assert_eq!(
        r.inference,
        "This conclusion is a mock synthesis derived from the retrieved evidence for objective: Answer"
    );
    let empty = PromptContext { workspace_name: "w".into(), objective: "o".into(), evidence: vec![] };
    assert_eq!(mock.respond(&empty).summary, "Model mock-research found no evidence in workspace w.");
}

#[test]
fn openai_endpoint_and_message_framing() {
    assert_eq!(chat_endpoint("https://api.openai.com/v1//"), "https://api.openai.com/v1/chat/completions");
    assert_eq!(chat_endpoint("http://x"), "http://x/chat/completions");
    let prompt = PromptContext {
        workspace_name: "demo".into(),
        objective: "Explain".into(),
        evidence: vec!["a".into(), "b".into()],
    };
    assert_eq!(user_message(&prompt), "Workspace: demo\nObjective: Explain\nEvidence:\na\n\nb");
}

#[test]
fn openai_reply_is_split_into_summary_and_inference() {
    let r = parse_reply("Intro\nSummary:  first part \nInference: guess\nSummary:second");
    assert_eq!(r.summary, "first partsecond");
    assert_eq!(r.inference, "guess");
    let plain = parse_reply("just text");
    assert_eq!(plain.summary, "just text");
    assert_eq!(plain.inference, "Inference was not separated by the provider response.");
    let none = reply_from_choice(None).err().unwrap();
    assert_eq!(none.message(), "llm error: openai returned no choices");
    assert!(reply_from_choice(Some("Summary: s".into())).is_ok());
}

#[test]
fn openai_status_and_key_errors() {
    assert!(check_status(200, "200 OK", "").is_ok());
    let e = check_status(401, "401 Unauthorized", "nope").err().unwrap();
    assert_eq!(e.message(), "llm error: openai returned status 401 Unauthorized: nope");
    assert_eq!(missing_key_error("OPENAI_API_KEY").message(), "llm error: OPENAI_API_KEY is not configured");
}

#[test]
fn answer_prompt_uses_chunk_text_and_citations_come_from_the_hits() {
    let corpus = corpus();
    let retriever = Retriever::new(
        SimpleIndex::new(IndexConfig { chunk_size: 200, chunk_overlap: 40, embedding_dimensions: 16, top_k: 4 }),
        4,
    );
    let hits = vec![retriever.hit_for_chunk_id("c1", &corpus).unwrap()];
    let synth = Synthesizer::new();
    let prompt = synth.answer_prompt(&workspace(), "What is the core idea?", &hits);
    assert_eq!(prompt.workspace_name, "demo");
    assert_eq!(prompt.objective, "Answer the research question: What is the core idea?");
    assert_eq!(
        prompt.evidence,
        vec!["[Demo :: Core Idea]\nResearch Harness helps inspect documents with citations."]
    );
    let response = LlmResponse { summary: "S".into(), inference: "I".into() };
    let answer = synth.answer_text("What is the core idea?", &hits, &response);
    assert_eq!(
        answer,
        "Question: What is the core idea?\n\nOriginal Content:\n- [Demo / Core Idea] Research Harness helps inspect documents with citations.\n\nSystem Summary:\nS\n\nInference:\nI\n\nCitations:\n- Demo / Core Idea: Research Harness helps inspect documents with citations."
    );
    assert_eq!(
        list_original_content(&hits),
        "- [Demo / Core Idea] Research Harness helps inspect documents with citations."
    );
}

#[test]
fn report_prompt_and_text_cover_every_section() {
    let corpus = corpus();
    assert!(every_section_has_document(&corpus));
    let synth = Synthesizer::new();
    let prompt = synth.report_prompt(&workspace(), &corpus, ReportKind::Summary);
    assert_eq!(prompt.objective, "Generate a workspace summary with major themes.");
    assert_eq!(
        prompt.evidence,
        vec!["[Demo :: Core Idea]\nResearch Harness helps inspect documents with citations."]
    );
    let response = LlmResponse { summary: "S".into(), inference: "I".into() };
    assert_eq!(
        synth.report_text(&workspace(), &corpus, ReportKind::Outline, &response),
        "Workspace: demo\nReport: Outline\n\nSystem Summary:\nS\n\nInference:\nI\n\nCitation Map:\n- Demo / Core Idea"
    );
    let mut orphan = corpus;
    orphan.documents.clear();
    assert!(!every_section_has_document(&orphan));
}
