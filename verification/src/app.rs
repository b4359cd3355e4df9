//! The decisions of the command flows: which model to use, how questions are
//! answered from the index, which report is made, and how outputs are named.
//! Performing the flows' I/O is the caller's part.
use vstd::prelude::*;

use crate::cli::ReportCommand;
use crate::config::LlmConfig;
use crate::error::AppError;
use crate::index::simple_index::SimpleIndexData;
use crate::retrieval::retriever::{
    empty_index_message, hit_views, spec_augment, spec_retrieve, RetrievalHit, RetrievalRequest,
    Retriever,
};
use crate::storage::workspace_store::WorkspaceCorpus;
use crate::synthesis::synthesizer::ReportKind;
use crate::utils::chars::{
    chars_of, contains, contains_chars, eq_chars, lower, lower_chars, spec_is_ascii_alphanumeric,
    spec_lower_char, lower_char, string_of, trim_class, trim_class_chars, CharClass,
};

verus! {

/// The model behind the synthesizer.
#[derive(Clone, Copy, Debug, PartialEq, Eq, Structural)]
pub enum ProviderChoice {
    OpenAi,
    Mock,
}

/// The OpenAI model when the configured provider is `openai`, else the mock.
pub fn provider_choice(config: &LlmConfig) -> (r: ProviderChoice)
    ensures
        (r == ProviderChoice::OpenAi) == (config.provider@ == "openai"@),
{
    if eq_chars(&chars_of(config.provider.as_str()), &chars_of("openai")) {
        ProviderChoice::OpenAi
    } else {
        ProviderChoice::Mock
    }
}

// ---------------------------------------------------------------------------
// Summary questions
// ---------------------------------------------------------------------------

/// Whether a question asks for an overview: its lowercased text contains an
/// English marker, or its text contains a Chinese one.
pub open spec fn spec_is_summary_query(query: Seq<char>) -> bool {
    let n = lower(query);
    ||| contains(n, "summary"@)
    ||| contains(n, "summarize"@)
    ||| contains(n, "main purpose"@)
    ||| contains(n, "main topic"@)
    ||| contains(n, "what is this document about"@)
    ||| contains(n, "what is this book about"@)
    ||| contains(query, "核心主题"@)
    ||| contains(query, "主要内容"@)
    ||| contains(query, "讲什么"@)
    ||| contains(query, "主要讲"@)
    ||| contains(query, "主旨"@)
    ||| contains(query, "概要"@)
    ||| contains(query, "概述"@)
    ||| contains(query, "总结"@)
}

pub fn is_summary_query(query: &str) -> (r: bool)
    ensures
        r == spec_is_summary_query(query@),
{
    let q = chars_of(query);
    let n = lower_chars(&q);
    if contains_chars(&n, &chars_of("summary")) || contains_chars(&n, &chars_of("summarize"))
        || contains_chars(&n, &chars_of("main purpose")) || contains_chars(&n, &chars_of("main topic"))
        || contains_chars(&n, &chars_of("what is this document about")) || contains_chars(
        &n,
        &chars_of("what is this book about"),
    ) {
        return true;
    }
    contains_chars(&q, &chars_of("核心主题")) || contains_chars(&q, &chars_of("主要内容"))
        || contains_chars(&q, &chars_of("讲什么")) || contains_chars(&q, &chars_of("主要讲"))
        || contains_chars(&q, &chars_of("主旨")) || contains_chars(&q, &chars_of("概要"))
        || contains_chars(&q, &chars_of("概述")) || contains_chars(&q, &chars_of("总结"))
}

// ---------------------------------------------------------------------------
// Output names
// ---------------------------------------------------------------------------

/// ASCII letters and digits lowercased; everything else a dash.
pub open spec fn slug_char(c: char) -> char {
    if spec_is_ascii_alphanumeric(c) {
        spec_lower_char(c)
    } else {
        '-'
    }
}

/// `s` with every run of dashes shortened to one dash.
pub open spec fn collapse_dashes(s: Seq<char>) -> Seq<char>
    decreases s.len(),
{
    if s.len() == 0 {
        seq![]
    } else {
        let rest = collapse_dashes(s.drop_last());
        if s.last() == '-' && s.len() >= 2 && s[s.len() - 2] == '-' {
            rest
        } else {
            rest.push(s.last())
        }
    }
}

/// The file-name slug of a question: letters and digits lowercased, other
/// characters as dashes, runs of dashes shortened to one, dashes trimmed from
/// both ends, at most 48 characters; `query` when nothing is left.
pub open spec fn spec_query_slug(query: Seq<char>) -> Seq<char> {
    let t = trim_class(collapse_dashes(query.map_values(|c: char| slug_char(c))), CharClass::Dash);
    let u = if t.len() > 48 { t.take(48) } else { t };
    if u.len() == 0 {
        "query"@
    } else {
        u
    }
}

pub fn sanitize_file_name(input: &str) -> (r: String)
    ensures
        r@ == spec_query_slug(input@),
{
    let cs = chars_of(input);
    let ghost m = cs@.map_values(|c: char| slug_char(c));
    let mut out: Vec<char> = Vec::new();
    let mut i: usize = 0;
    while i < cs.len()
        invariant
            i <= cs.len(),
            m == cs@.map_values(|c: char| slug_char(c)),
            out@ == collapse_dashes(m.take(i as int)),
            i > 0 ==> out@.len() > 0 && out@.last() == m[i - 1],
        decreases cs.len() - i,
    {
        let c = cs[i];
        let mapped = if ('A' <= c && c <= 'Z') || ('a' <= c && c <= 'z') || ('0' <= c && c <= '9') {
            lower_char(c)
        } else {
            '-'
        };
        proof {
            assert(m[i as int] == mapped);
            assert(m.take(i + 1).drop_last() =~= m.take(i as int));
            assert(m.take(i + 1).last() == m[i as int]);
            if i > 0 {
                assert(m.take(i + 1)[i - 1] == m[i - 1]);
            }
        }
        let skip = mapped == '-' && i > 0 && out[out.len() - 1] == '-';
        if !skip {
            out.push(mapped);
        }
        i = i + 1;
    }
    assert(m.take(cs.len() as int) =~= m);
    let t = trim_class_chars(&out, CharClass::Dash);
    let mut u = t;
    if u.len() > 48 {
        u.truncate(48);
    }
    if u.len() == 0 {
        "query".to_owned()
    } else {
        string_of(&u)
    }
}

// ---------------------------------------------------------------------------
// Flows
// ---------------------------------------------------------------------------

/// The number of opening sections a summary question adds.
pub open spec fn summary_lead_sections() -> usize {
    3
}

/// The hits a question is answered from: retrieval over the ranked entries
/// with the configured count, then, for a summary question, the summary leads
/// of the first sections.
pub open spec fn spec_ask_hits<E>(
    retriever: Retriever,
    query: Seq<char>,
    top_k: usize,
    ranked: Seq<crate::index::simple_index::IndexEntry<E>>,
    corpus: WorkspaceCorpus,
) -> Option<Seq<crate::retrieval::retriever::RetrievalHitView>> {
    match spec_retrieve(top_k, retriever.default_top_k, ranked, corpus) {
        None => None,
        Some(hs) => Some(
            if spec_is_summary_query(query) {
                spec_augment(hs, corpus, summary_lead_sections())
            } else {
                hs
            },
        ),
    }
}

/// Gathers the evidence for a question (see `spec_ask_hits`); an index error
/// when no entry resolves.
pub fn ask_hits<E>(
    retriever: &Retriever,
    query: &str,
    top_k: usize,
    ranked: &SimpleIndexData<E>,
    corpus: &WorkspaceCorpus,
) -> (r: Result<Vec<RetrievalHit>, AppError>)
    ensures
        match spec_ask_hits(*retriever, query@, top_k, ranked.entries@, *corpus) {
            None => r matches Err(AppError::Index(m)) && m@ == empty_index_message(),
            Some(hs) => r matches Ok(x) && hit_views(x@) == hs,
        },
{
    let request = RetrievalRequest { query: query.to_owned(), top_k };
    let hits = retriever.retrieve(&request, ranked, corpus);
    match hits {
        Err(e) => Err(e),
        Ok(hits) => {
            if is_summary_query(query) {
                Ok(retriever.augment_with_summary_leads(hits, corpus, 3))
            } else {
                Ok(hits)
            }
        },
    }
}

pub open spec fn no_documents_message() -> Seq<char> {
    "active workspace has no documents; run `cargo run -- add <path>` first"@
}

pub open spec fn report_kind_of(command: ReportCommand) -> ReportKind {
    match command {
        ReportCommand::Summary => ReportKind::Summary,
        ReportCommand::Compare => ReportKind::Compare,
        ReportCommand::Outline => ReportKind::Outline,
    }
}

pub open spec fn report_slug(command: ReportCommand) -> Seq<char> {
    match command {
        ReportCommand::Summary => "summary"@,
        ReportCommand::Compare => "compare"@,
        ReportCommand::Outline => "outline"@,
    }
}

/// The report to make for a command, with its output slug; a workspace error
/// when the workspace has no documents.
pub fn plan_report(corpus: &WorkspaceCorpus, command: ReportCommand) -> (r: Result<(ReportKind, String), AppError>)
    ensures
        corpus.documents@.len() == 0 ==> (r matches Err(AppError::Workspace(m)) && m@
            == no_documents_message()),
        corpus.documents@.len() > 0 ==> (r matches Ok((k, s)) && k == report_kind_of(command) && s@
            == report_slug(command)),
{
    if corpus.documents.len() == 0 {
        return Err(
            AppError::Workspace(
                "active workspace has no documents; run `cargo run -- add <path>` first".to_owned(),
            ),
        );
    }
    match command {
        ReportCommand::Summary => Ok((ReportKind::Summary, "summary".to_owned())),
        ReportCommand::Compare => Ok((ReportKind::Compare, "compare".to_owned())),
        ReportCommand::Outline => Ok((ReportKind::Outline, "outline".to_owned())),
    }
}

} // verus!
