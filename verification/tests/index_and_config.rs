use research_harness::config::{AppConfig, AppSettings, IndexConfig, LlmConfig, OpenAiConfig};
use research_harness::domain::chunk::Chunk;
use research_harness::index::simple_index::{IndexEntry, SimpleIndex, SimpleIndexData};
use research_harness::ingest::build_chunks;
use research_harness::domain::section::Section;

fn cfg() -> IndexConfig {
    IndexConfig { chunk_size: 200, chunk_overlap: 40, embedding_dimensions: 16, top_k: 4 }
}

fn entry(id: &str, doc: &str) -> IndexEntry<u32> {
    IndexEntry {
        chunk_id: id.into(),
        document_id: doc.into(),
        section_id: "s".into(),
        keywords: vec![],
        embedding: 0,
    }
}

#[test]
fn merge_replaces_entries_by_chunk_id_and_keeps_the_rest() {
    let index = SimpleIndex::new(cfg());
    let existing = SimpleIndexData { entries: vec![entry("a", "old"), entry("b", "old")] };
    let fresh = SimpleIndexData { entries: vec![entry("b", "new"), entry("c", "new")] };
    let merged = index.merge(existing, fresh);
    assert_eq!(merged.entries.len(), 3);
    let doc_of = |id: &str| {
        merged.entries.iter().find(|e| e.chunk_id == id).map(|e| e.document_id.clone()).unwrap()
    };
    assert_eq!(doc_of("a"), "old");
    assert_eq!(doc_of("b"), "new");
    assert_eq!(doc_of("c"), "new");
}

#[test]
fn build_counts_tokens_per_hashed_slot() {
    let index = SimpleIndex::new(cfg());
    let counts = index.embed_counts("ritual ritual transition");
    assert_eq!(counts.len(), 16);
    assert_eq!(counts.iter().sum::<usize>(), 3);
    let chunk = Chunk {
        id: "c".into(),
        document_id: "d".into(),
        section_id: "s".into(),
        ordinal: 0,
        text: "ritual ritual transition".into(),
        token_count: 3,
        keywords: vec![],
    };
    let data = index.build(&[chunk]);
    assert_eq!(data.entries.len(), 1);
    assert_eq!(data.entries[0].keywords, vec!["ritual", "transition"]);
    assert_eq!(data.entries[0].embedding, counts);
}

fn config(name: &str, size: usize, overlap: usize) -> AppConfig {
    AppConfig {
        app: AppSettings {
            name: name.into(),
            workspace_root: "workspace".into(),
            active_workspace_file: ".research-harness/active-workspace".into(),
        },
        llm: LlmConfig {
            provider: "mock".into(),
            model: "mock-research".into(),
            timeout_secs: 30,
            openai: OpenAiConfig { base_url: "https://api.openai.com/v1".into(), api_key_env: "OPENAI_API_KEY".into() },
        },
        index: IndexConfig { chunk_size: size, chunk_overlap: overlap, embedding_dimensions: 16, top_k: 4 },
    }
}

#[test]
fn validate_names_the_first_bad_setting() {
    assert!(config("research-harness", 200, 40).validate().is_ok());
    assert_eq!(
        config("  ", 200, 40).validate().err().unwrap().message(),
        "config error: app.name must not be empty"
    );
    assert_eq!(
        config("x", 40, 40).validate().err().unwrap().message(),
        "config error: index.chunk_overlap must be smaller than index.chunk_size"
    );
    assert_eq!(
        config("x", 0, 0).validate().err().unwrap().message(),
        "config error: index.chunk_size must be > 0"
    );
}

#[test]
fn normalize_paths_resolves_relative_paths_only() {
    let mut c = config("x", 200, 40);
    c.app.workspace_root = "/abs/ws".into();
    c.normalize_paths("/root/project");
    assert_eq!(c.app.workspace_root, "/abs/ws");
    assert_eq!(c.app.active_workspace_file, "/root/project/.research-harness/active-workspace");
}

#[test]
fn chunks_link_back_to_their_sections() {
    let mut sections = vec![Section {
        id: "s1".into(),
        document_id: "d".into(),
        heading: "H".into(),
        level: 1,
        ordinal_path: vec![1],
        parent_id: None,
        content: "abcdefghij".into(),
        chunk_ids: vec![],
    }];
    let small = IndexConfig { chunk_size: 4, chunk_overlap: 1, embedding_dimensions: 8, top_k: 2 };
    let chunks = build_chunks("d", &mut sections, &small);
    let texts: Vec<&str> = chunks.iter().map(|c| c.text.as_str()).collect();
    assert_eq!(texts, vec!["abcd", "defg", "ghij"]);
    let ids: Vec<String> = chunks.iter().map(|c| c.id.clone()).collect();
    assert_eq!(sections[0].chunk_ids, ids);
    for (i, c) in chunks.iter().enumerate() {
        assert_eq!(c.section_id, "s1");
        assert_eq!(c.document_id, "d");
        assert_eq!(c.ordinal, i);
    }
}

#[test]
fn keyword_overlap_counts_query_terms_among_keywords() {
    let index = SimpleIndex::new(cfg());
    let e = IndexEntry {
        chunk_id: "c".to_string(),
        document_id: "d".to_string(),
        section_id: "s".to_string(),
        keywords: vec!["ritual".to_string(), "reform".to_string()],
        embedding: 0u32,
    };
    assert_eq!(index.keyword_overlap("ritual transition ritual", &e), 2);
    assert_eq!(index.keyword_overlap("nothing here", &e), 0);
}

#[test]
fn zero_slots_embed_texts_without_tokens() {
    let index = SimpleIndex::new(IndexConfig { chunk_size: 10, chunk_overlap: 2, embedding_dimensions: 0, top_k: 1 });
    assert!(index.embed_counts("the , 。").is_empty());
    let chunk = Chunk {
        id: "c".into(),
        document_id: "d".into(),
        section_id: "s".into(),
        ordinal: 0,
        text: "a is the".into(),
        token_count: 0,
        keywords: vec![],
    };
    let data = index.build(&[chunk]);
    assert!(data.entries[0].embedding.is_empty());
    assert!(data.entries[0].keywords.is_empty());
}
