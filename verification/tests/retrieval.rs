use research_harness::config::IndexConfig;
use research_harness::domain::chunk::Chunk;
use research_harness::domain::document::Document;
use research_harness::domain::section::Section;
use research_harness::domain::timestamp::Timestamp;
use research_harness::index::simple_index::SimpleIndex;
use research_harness::retrieval::retriever::{
    dedupe_hits_by_section, excerpt, looks_like_body_lead, RetrievalRequest, Retriever,
};
use research_harness::storage::workspace_store::WorkspaceCorpus;

fn index_config() -> IndexConfig {
    IndexConfig { chunk_size: 700, chunk_overlap: 120, embedding_dimensions: 32, top_k: 4 }
}

fn document(section_ids: Vec<&str>, chunk_ids: Vec<&str>) -> Document {
    Document {
        id: "doc-1".into(),
        title: "Jian Shang".into(),
        source_path: "/tmp/source.pdf".into(),
        stored_path: "/tmp/workspace/source.pdf".into(),
        media_type: "application/pdf".into(),
        imported_at: Timestamp { secs: 0, nanos: 0 },
        section_ids: section_ids.into_iter().map(String::from).collect(),
        chunk_ids: chunk_ids.into_iter().map(String::from).collect(),
    }
}

fn section(id: &str, heading: &str, ordinal: usize, content: &str, chunk_ids: Vec<&str>) -> Section {
    Section {
        id: id.into(),
        document_id: "doc-1".into(),
        heading: heading.into(),
        level: 1,
        ordinal_path: vec![ordinal],
        parent_id: None,
        content: content.into(),
        chunk_ids: chunk_ids.into_iter().map(String::from).collect(),
    }
}

fn chunk(id: &str, section_id: &str, ordinal: usize, text: String, token_count: usize) -> Chunk {
    Chunk {
        id: id.into(),
        document_id: "doc-1".into(),
        section_id: section_id.into(),
        ordinal,
        text,
        token_count,
        keywords: vec![],
    }
}

#[test]
fn retrieve_keeps_hits_lightweight_for_large_sections() {
    let large_section_text = "A".repeat(20_000);
    let chunk_text = "ritual reform and political transition".repeat(30);
    let document = document(vec!["sec-1"], vec!["chunk-1"]);
    let section = section("sec-1", "Collapsed PDF Section", 1, &large_section_text, vec!["chunk-1"]);
    let mut chunk = chunk("chunk-1", "sec-1", 0, chunk_text.clone(), 12);
    chunk.keywords = vec!["ritual".into(), "transition".into()];
    let corpus = WorkspaceCorpus {
        documents: vec![document],
        sections: vec![section],
        chunks: vec![chunk.clone()],
    };
    let index = SimpleIndex::new(index_config()).build(&[chunk]);
    let retriever = Retriever::new(SimpleIndex::new(index_config()), 4);

    let hits = retriever
        .retrieve(&RetrievalRequest { query: "ritual transition".into(), top_k: 1 }, &index, &corpus)
        .unwrap();

    assert_eq!(hits.len(), 1);
    assert_eq!(hits[0].chunk.text, chunk_text);
    assert_eq!(hits[0].section.heading, "Collapsed PDF Section");
    assert_eq!(hits[0].document.title, "Jian Shang");
    assert!(hits[0].citation.excerpt.len() <= 180);
    assert!(large_section_text.len() > hits[0].citation.excerpt.len());
}

#[test]
fn augment_with_summary_leads_adds_opening_sections() {
    let document = document(vec!["sec-1", "sec-2"], vec!["chunk-1", "chunk-2"]);
    let section_one = section("sec-1", "第一章 新石器时代", 1, "first", vec!["chunk-1"]);
    let section_two = section("sec-2", "第二章 周人崛起", 2, "second", vec!["chunk-2"]);
    let chunk_one = chunk("chunk-1", "sec-1", 0, "殷周之变与华夏新生".repeat(20), 2);
    let chunk_two = chunk("chunk-2", "sec-2", 0, "周人崛起与宗教变革".repeat(20), 2);
    let corpus = WorkspaceCorpus {
        documents: vec![document],
        sections: vec![section_one, section_two],
        chunks: vec![chunk_one, chunk_two],
    };
    let retriever = Retriever::new(SimpleIndex::new(index_config()), 4);
    let hits = vec![retriever.hit_for_chunk_id("chunk-2", &corpus).unwrap()];

    let augmented = retriever.augment_with_summary_leads(hits, &corpus, 2);

    assert_eq!(augmented.len(), 2);
    assert_eq!(augmented[0].chunk.id, "chunk-1");
    assert_eq!(augmented[1].chunk.id, "chunk-2");
}

#[test]
fn augment_with_summary_leads_dedupes_same_section_hits() {
    let document = document(vec!["sec-1"], vec!["chunk-1", "chunk-2"]);
    let section = section("sec-1", "第一章 新石器时代", 1, "正文", vec!["chunk-1", "chunk-2"]);
    let chunk_one = chunk("chunk-1", "sec-1", 0, "殷周之变与华夏新生".repeat(20), 20);
    let chunk_two = chunk("chunk-2", "sec-1", 1, "人祭与王权".repeat(20), 20);
    let corpus = WorkspaceCorpus {
        documents: vec![document],
        sections: vec![section],
        chunks: vec![chunk_one, chunk_two],
    };
    let retriever = Retriever::new(SimpleIndex::new(index_config()), 4);
    let hits = vec![
        retriever.hit_for_chunk_id("chunk-1", &corpus).unwrap(),
        retriever.hit_for_chunk_id("chunk-2", &corpus).unwrap(),
    ];

    let augmented = retriever.augment_with_summary_leads(hits, &corpus, 1);

    assert_eq!(augmented.len(), 1);
    assert_eq!(augmented[0].section.id, "sec-1");
}

#[test]
fn retrieve_reports_an_empty_index() {
    let corpus = WorkspaceCorpus { documents: vec![], sections: vec![], chunks: vec![] };
    let index = SimpleIndex::new(index_config()).build(&[]);
    let retriever = Retriever::new(SimpleIndex::new(index_config()), 4);
    let err = retriever
        .retrieve(&RetrievalRequest { query: "anything".into(), top_k: 3 }, &index, &corpus)
        .err()
        .unwrap();
    assert_eq!(err.message(), "index error: index is empty or no retrievable chunks were found");
}

#[test]
fn retrieve_caps_hits_at_the_smaller_count_and_cites_each_hit() {
    let document = document(vec!["sec-1", "sec-2"], vec!["c1", "c2", "c3"]);
    let s1 = section("sec-1", "One", 1, "x", vec!["c1", "c2"]);
    let s2 = section("sec-2", "Two", 2, "y", vec!["c3"]);
    let chunks = vec![
        chunk("c1", "sec-1", 0, "alpha   beta\n gamma".into(), 3),
        chunk("c2", "sec-1", 1, "delta".into(), 1),
        chunk("c3", "sec-2", 0, "epsilon".into(), 1),
    ];
    let corpus = WorkspaceCorpus { documents: vec![document], sections: vec![s1, s2], chunks: chunks.clone() };
    let index = SimpleIndex::new(index_config()).build(&chunks);
    let retriever = Retriever::new(SimpleIndex::new(index_config()), 2);
    let hits = retriever
        .retrieve(&RetrievalRequest { query: "q".into(), top_k: 5 }, &index, &corpus)
        .unwrap();
    assert_eq!(hits.len(), 2);
    assert_eq!(hits[0].chunk.id, "c1");
    assert_eq!(hits[0].citation.chunk_id, "c1");
    assert_eq!(hits[0].citation.excerpt, "alpha beta gamma");
    assert_eq!(hits[0].citation.section_heading, "One");
    assert_eq!(hits[1].citation.document_title, "Jian Shang");
    let zero = retriever
        .retrieve(&RetrievalRequest { query: "q".into(), top_k: 0 }, &index, &corpus)
        .unwrap();
    assert_eq!(zero.len(), 1);
}

#[test]
fn dedupe_keeps_the_first_hit_of_each_section() {
    let document = document(vec!["sec-1", "sec-2"], vec!["c1", "c2", "c3"]);
    let s1 = section("sec-1", "One", 1, "x", vec!["c1", "c2"]);
    let s2 = section("sec-2", "Two", 2, "y", vec!["c3"]);
    let corpus = WorkspaceCorpus {
        documents: vec![document],
        sections: vec![s1, s2],
        chunks: vec![
            chunk("c1", "sec-1", 0, "a".into(), 1),
            chunk("c2", "sec-1", 1, "b".into(), 1),
            chunk("c3", "sec-2", 0, "c".into(), 1),
        ],
    };
    let retriever = Retriever::new(SimpleIndex::new(index_config()), 4);
    let hits = vec![
        retriever.hit_for_chunk_id("c2", &corpus).unwrap(),
        retriever.hit_for_chunk_id("c3", &corpus).unwrap(),
        retriever.hit_for_chunk_id("c1", &corpus).unwrap(),
    ];
    let deduped = dedupe_hits_by_section(hits);
    let ids: Vec<&str> = deduped.iter().map(|h| h.chunk.id.as_str()).collect();
    assert_eq!(ids, vec!["c2", "c3"]);
    assert!(retriever.hit_for_chunk_id("missing", &corpus).is_none());
}

#[test]
fn excerpt_collapses_whitespace_and_stops_at_180_characters() {
    assert_eq!(excerpt("  a \n b\tc  "), "a b c");
    let long = "字".repeat(400);
    assert_eq!(excerpt(&long).chars().count(), 180);
}

#[test]
fn body_leads_need_length_cjk_and_no_front_matter() {
    assert!(looks_like_body_lead(&"殷周之变与华夏新生".repeat(20)));
    assert!(!looks_like_body_lead("殷周之变"));
    assert!(!looks_like_body_lead(&format!("{}ISBN", "殷周之变与华夏新生".repeat(20))));
    assert!(!looks_like_body_lead(&format!("目录{}", "殷周之变与华夏新生".repeat(20))));
    assert!(!looks_like_body_lead(&"abcdefghij".repeat(20)));
}
