//! Synthesis: frames retrieved evidence as a prompt, and turns a model's
//! response into the answer or report text with its citations.  Asking the
//! model is the caller's part.
use vstd::prelude::*;

use crate::domain::document::DocumentView;
use crate::domain::section::{Section, SectionView};
use crate::domain::workspace::Workspace;
use crate::llm::provider::{LlmResponse, LlmResponseView, PromptContext, PromptContextView};
use crate::retrieval::retriever::{
    document_id_of, find_first_document, first_with, hit_views, lemma_first_with_bounds, RetrievalHit,
    RetrievalHitView,
};
use crate::storage::workspace_store::WorkspaceCorpus;
use crate::utils::chars::{append_chars, chars_of, join, join_chars, lemma_deep_view_push, string_of};
use crate::utils::copy::copy_string;
use crate::utils::text::strings_of;

verus! {

/// The kinds of workspace report.
#[derive(Clone, Copy, Debug, PartialEq, Eq, Structural)]
pub enum ReportKind {
    Summary,
    Compare,
    Outline,
}

/// The kind's name as the report shows it.
pub open spec fn report_kind_name(kind: ReportKind) -> Seq<char> {
    match kind {
        ReportKind::Summary => "Summary"@,
        ReportKind::Compare => "Compare"@,
        ReportKind::Outline => "Outline"@,
    }
}

/// What the model is asked to do for each kind of report.
pub open spec fn report_objective(kind: ReportKind) -> Seq<char> {
    match kind {
        ReportKind::Summary => "Generate a workspace summary with major themes."@,
        ReportKind::Compare => "Compare the imported documents and highlight agreements and differences."@,
        ReportKind::Outline => "Generate a research outline based on the imported documents."@,
    }
}

/// Turns evidence into prompts and responses into answers and reports.
pub struct Synthesizer {}

/// An evidence packet: `[title :: heading]`, a line feed, then the body.
pub open spec fn evidence_entry(title: Seq<char>, heading: Seq<char>, body: Seq<char>) -> Seq<char> {
    "["@ + title + " :: "@ + heading + "]\n"@ + body
}

pub open spec fn hit_evidence(h: RetrievalHitView) -> Seq<char> {
    evidence_entry(h.document.title, h.section.heading, h.chunk.text)
}

/// The prompt for a question: the chunks of the hits, labelled.
pub open spec fn spec_answer_prompt(
    workspace_name: Seq<char>,
    query: Seq<char>,
    hits: Seq<RetrievalHitView>,
) -> PromptContextView {
    PromptContextView {
        workspace_name,
        objective: "Answer the research question: "@ + query,
        evidence: hits.map_values(|h: RetrievalHitView| hit_evidence(h)),
    }
}

pub open spec fn original_line(h: RetrievalHitView) -> Seq<char> {
    "- ["@ + h.document.title + " / "@ + h.section.heading + "] "@ + h.citation.excerpt
}

pub open spec fn citation_line(h: RetrievalHitView) -> Seq<char> {
    "- "@ + h.citation.document_title + " / "@ + h.citation.section_heading + ": "@
        + h.citation.excerpt
}

/// One line per hit: its document, section and excerpt.
pub open spec fn spec_list_original_content(hits: Seq<RetrievalHitView>) -> Seq<char> {
    join(hits.map_values(|h: RetrievalHitView| original_line(h)), "\n"@)
}

/// The answer: the question, the original content, the model's summary and
/// inference, and the citations.
pub open spec fn spec_answer_text(
    query: Seq<char>,
    hits: Seq<RetrievalHitView>,
    response: LlmResponseView,
) -> Seq<char> {
    "Question: "@ + query + "\n\nOriginal Content:\n"@ + spec_list_original_content(hits)
        + "\n\nSystem Summary:\n"@ + response.summary + "\n\nInference:\n"@ + response.inference
        + "\n\nCitations:\n"@ + join(hits.map_values(|h: RetrievalHitView| citation_line(h)), "\n"@)
}

/// Whether every section's document is among the documents.
pub open spec fn sections_have_documents(sections: Seq<SectionView>, documents: Seq<DocumentView>) -> bool {
    forall|i: int|
        0 <= i < sections.len() ==> first_with(
            documents,
            |d: DocumentView| document_id_of(d),
            (#[trigger] sections[i]).document_id,
        ) >= 0
}

/// The first document with the section's document id.
pub open spec fn section_document(documents: Seq<DocumentView>, s: SectionView) -> DocumentView {
    documents[first_with(documents, |d: DocumentView| document_id_of(d), s.document_id)]
}

/// The prompt for a report: every section, labelled with its document.
pub open spec fn spec_report_prompt(
    workspace_name: Seq<char>,
    sections: Seq<SectionView>,
    documents: Seq<DocumentView>,
    kind: ReportKind,
) -> PromptContextView {
    PromptContextView {
        workspace_name,
        objective: report_objective(kind),
        evidence: sections.map_values(
            |s: SectionView| evidence_entry(section_document(documents, s).title, s.heading, s.content),
        ),
    }
}

pub open spec fn citation_map_line(documents: Seq<DocumentView>, s: SectionView) -> Seq<char> {
    "- "@ + section_document(documents, s).title + " / "@ + s.heading
}

/// The report: workspace, kind, the model's summary and inference, and one
/// citation line per section.
pub open spec fn spec_report_text(
    workspace_name: Seq<char>,
    sections: Seq<SectionView>,
    documents: Seq<DocumentView>,
    kind: ReportKind,
    response: LlmResponseView,
) -> Seq<char> {
    "Workspace: "@ + workspace_name + "\nReport: "@ + report_kind_name(kind)
        + "\n\nSystem Summary:\n"@ + response.summary + "\n\nInference:\n"@ + response.inference
        + "\n\nCitation Map:\n"@ + join(
        sections.map_values(|s: SectionView| citation_map_line(documents, s)),
        "\n"@,
    )
}

/// Document `j` is the first of `documents` whose id is `id`.
pub open spec fn first_document_with_id(documents: Seq<DocumentView>, id: Seq<char>, j: int) -> bool {
    &&& 0 <= j < documents.len()
    &&& documents[j].id == id
    &&& forall|m: int| 0 <= m < j ==> documents[m].id != id
}

proof fn lemma_section_document(documents: Seq<DocumentView>, s: SectionView) -> (j: int)
    requires
        first_with(documents, |d: DocumentView| document_id_of(d), s.document_id) >= 0,
    ensures
        first_document_with_id(documents, s.document_id, j),
        section_document(documents, s) == documents[j],
{
    let f = |d: DocumentView| document_id_of(d);
    lemma_first_with_bounds(documents, f, s.document_id);
    let j = first_with(documents, f, s.document_id);
    assert forall|m: int| 0 <= m < j implies documents[m].id != s.document_id by {
        assert(f(documents[m]) != s.document_id);
    }
    j
}

/// A report cites every section, in order, under the title of its own
/// document (the first document whose id is the section's document id): its
/// prompt has one evidence entry `[title :: heading]` and the section's
/// content per section, and its text ends with a citation map of one line
/// `- title / heading` per section.
pub proof fn lemma_report_cites_section_documents(
    workspace_name: Seq<char>,
    sections: Seq<SectionView>,
    documents: Seq<DocumentView>,
    kind: ReportKind,
    response: LlmResponseView,
)
    requires
        sections_have_documents(sections, documents),
    ensures
        ({
            let ev = spec_report_prompt(workspace_name, sections, documents, kind).evidence;
            &&& ev.len() == sections.len()
            &&& forall|k: int|
                #![trigger sections[k]]
                0 <= k < sections.len() ==> exists|j: int|
                    #[trigger] first_document_with_id(documents, sections[k].document_id, j) && ev[k]
                        == "["@ + documents[j].title + " :: "@ + sections[k].heading + "]\n"@
                        + sections[k].content
        }),
        exists|pre: Seq<char>, ls: Seq<Seq<char>>|
            {
                &&& spec_report_text(workspace_name, sections, documents, kind, response) == pre
                    + "\n\nCitation Map:\n"@ + join(ls, "\n"@)
                &&& ls.len() == sections.len()
                &&& forall|k: int|
                    #![trigger sections[k]]
                    0 <= k < sections.len() ==> exists|j: int|
                        #[trigger] first_document_with_id(documents, sections[k].document_id, j)
                            && ls[k] == "- "@ + documents[j].title + " / "@ + sections[k].heading
            },
{
    let ev = spec_report_prompt(workspace_name, sections, documents, kind).evidence;
    let ls = sections.map_values(|s: SectionView| citation_map_line(documents, s));
    assert forall|k: int| #![trigger sections[k]] 0 <= k < sections.len() implies exists|j: int|
        #[trigger] first_document_with_id(documents, sections[k].document_id, j) && ev[k] == "["@
            + documents[j].title + " :: "@ + sections[k].heading + "]\n"@ + sections[k].content by {
        let j = lemma_section_document(documents, sections[k]);
        assert(first_document_with_id(documents, sections[k].document_id, j));
    }
    assert forall|k: int| #![trigger sections[k]] 0 <= k < sections.len() implies exists|j: int|
        #[trigger] first_document_with_id(documents, sections[k].document_id, j) && ls[k] == "- "@
            + documents[j].title + " / "@ + sections[k].heading by {
        let j = lemma_section_document(documents, sections[k]);
        assert(first_document_with_id(documents, sections[k].document_id, j));
    }
    let pre = "Workspace: "@ + workspace_name + "\nReport: "@ + report_kind_name(kind)
        + "\n\nSystem Summary:\n"@ + response.summary + "\n\nInference:\n"@ + response.inference;
    assert(spec_report_text(workspace_name, sections, documents, kind, response) == pre
        + "\n\nCitation Map:\n"@ + join(ls, "\n"@));
}

fn kind_name(kind: ReportKind) -> (r: &'static str)
    ensures
        r@ == report_kind_name(kind),
{
    match kind {
        ReportKind::Summary => "Summary",
        ReportKind::Compare => "Compare",
        ReportKind::Outline => "Outline",
    }
}

fn objective_of(kind: ReportKind) -> (r: &'static str)
    ensures
        r@ == report_objective(kind),
{
    match kind {
        ReportKind::Summary => "Generate a workspace summary with major themes.",
        ReportKind::Compare => "Compare the imported documents and highlight agreements and differences.",
        ReportKind::Outline => "Generate a research outline based on the imported documents.",
    }
}

fn entry_of(title: &String, heading: &String, body: &String) -> (r: Vec<char>)
    ensures
        r@ == evidence_entry(title@, heading@, body@),
{
    let mut l = chars_of("[");
    append_chars(&mut l, &chars_of(title.as_str()));
    append_chars(&mut l, &chars_of(" :: "));
    append_chars(&mut l, &chars_of(heading.as_str()));
    append_chars(&mut l, &chars_of("]\n"));
    append_chars(&mut l, &chars_of(body.as_str()));
    assert(l@ =~= evidence_entry(title@, heading@, body@));
    l
}

/// The hits' lines, one per hit, joined by line feeds (`- [title / heading] excerpt`).
pub fn list_original_content(hits: &Vec<RetrievalHit>) -> (r: String)
    ensures
        r@ == spec_list_original_content(hit_views(hits@)),
{
    let ghost hv = hit_views(hits@);
    let mut ls: Vec<Vec<char>> = Vec::new();
    let mut i: usize = 0;
    while i < hits.len()
        invariant
            hv == hit_views(hits@),
            i <= hits.len(),
            ls.deep_view() == hv.take(i as int).map_values(|h: RetrievalHitView| original_line(h)),
        decreases hits.len() - i,
    {
        let h = &hits[i];
        let mut l = chars_of("- [");
        append_chars(&mut l, &chars_of(h.document.title.as_str()));
        append_chars(&mut l, &chars_of(" / "));
        append_chars(&mut l, &chars_of(h.section.heading.as_str()));
        append_chars(&mut l, &chars_of("] "));
        append_chars(&mut l, &chars_of(h.citation.excerpt.as_str()));
        let ghost old_ls = ls;
        ls.push(l);
        proof {
            assert(hv[i as int] == h@);
            assert(l@ =~= original_line(h@));
            lemma_deep_view_push(old_ls, ls, l);
            assert(hv.take(i + 1).map_values(|h: RetrievalHitView| original_line(h)) =~= hv.take(
                i as int,
            ).map_values(|h: RetrievalHitView| original_line(h)).push(original_line(hv[i as int])));
        }
        i = i + 1;
    }
    assert(hv.take(hits.len() as int) =~= hv);
    string_of(&join_chars(&ls, &chars_of("\n")))
}

fn citation_lines(hits: &Vec<RetrievalHit>) -> (r: Vec<char>)
    ensures
        r@ == join(hit_views(hits@).map_values(|h: RetrievalHitView| citation_line(h)), "\n"@),
{
    let ghost hv = hit_views(hits@);
    let mut ls: Vec<Vec<char>> = Vec::new();
    let mut i: usize = 0;
    while i < hits.len()
        invariant
            hv == hit_views(hits@),
            i <= hits.len(),
            ls.deep_view() == hv.take(i as int).map_values(|h: RetrievalHitView| citation_line(h)),
        decreases hits.len() - i,
    {
        let h = &hits[i];
        let mut l = chars_of("- ");
        append_chars(&mut l, &chars_of(h.citation.document_title.as_str()));
        append_chars(&mut l, &chars_of(" / "));
        append_chars(&mut l, &chars_of(h.citation.section_heading.as_str()));
        append_chars(&mut l, &chars_of(": "));
        append_chars(&mut l, &chars_of(h.citation.excerpt.as_str()));
        let ghost old_ls = ls;
        ls.push(l);
        proof {
            assert(hv[i as int] == h@);
            assert(l@ =~= citation_line(h@));
            lemma_deep_view_push(old_ls, ls, l);
            assert(hv.take(i + 1).map_values(|h: RetrievalHitView| citation_line(h)) =~= hv.take(
                i as int,
            ).map_values(|h: RetrievalHitView| citation_line(h)).push(citation_line(hv[i as int])));
        }
        i = i + 1;
    }
    assert(hv.take(hits.len() as int) =~= hv);
    join_chars(&ls, &chars_of("\n"))
}

/// Whether every section of the corpus has its document in the corpus.
pub fn every_section_has_document(corpus: &WorkspaceCorpus) -> (r: bool)
    ensures
        r == sections_have_documents(corpus.section_views(), corpus.document_views()),
{
    let ghost sv = corpus.section_views();
    let mut i: usize = 0;
    while i < corpus.sections.len()
        invariant
            sv == corpus.section_views(),
            i <= corpus.sections.len(),
            forall|j: int|
                0 <= j < i ==> first_with(
                    corpus.document_views(),
                    |d: DocumentView| document_id_of(d),
                    (#[trigger] sv[j]).document_id,
                ) >= 0,
        decreases corpus.sections.len() - i,
    {
        assert(sv[i as int] == corpus.sections@[i as int]@);
        let found = find_first_document(
            &corpus.documents,
            &chars_of(corpus.sections[i].document_id.as_str()),
        );
        if found.is_none() {
            return false;
        }
        i = i + 1;
    }
    true
}

/// The index of the section's document (its first document with that id).
fn document_index(corpus: &WorkspaceCorpus, section: &Section) -> (r: usize)
    requires
        first_with(corpus.document_views(), |d: DocumentView| document_id_of(d), section@.document_id)
            >= 0,
    ensures
        r < corpus.documents.len(),
        corpus.documents@[r as int]@ == section_document(corpus.document_views(), section@),
{
    let found = find_first_document(&corpus.documents, &chars_of(section.document_id.as_str()));
    match found {
        Some(d) => {
            assert(corpus.document_views()[d as int] == corpus.documents@[d as int]@);
            d
        },
        None => {
            proof {
                assert(false);
            }
            0
        },
    }
}

impl Synthesizer {
    pub fn new() -> (r: Self) {
        Synthesizer {  }
    }

    /// The prompt for a question over the hits (see `spec_answer_prompt`).
    pub fn answer_prompt(&self, workspace: &Workspace, query: &str, hits: &Vec<RetrievalHit>) -> (r: PromptContext)
        ensures
            r@ == spec_answer_prompt(workspace.name@, query@, hit_views(hits@)),
    {
        let ghost hv = hit_views(hits@);
        let mut evidence: Vec<Vec<char>> = Vec::new();
        let mut i: usize = 0;
        while i < hits.len()
            invariant
                hv == hit_views(hits@),
                i <= hits.len(),
                evidence.deep_view() == hv.take(i as int).map_values(|h: RetrievalHitView| hit_evidence(h)),
            decreases hits.len() - i,
        {
            let h = &hits[i];
            let e = entry_of(&h.document.title, &h.section.heading, &h.chunk.text);
            let ghost old_e = evidence;
            evidence.push(e);
            proof {
                assert(hv[i as int] == h@);
                lemma_deep_view_push(old_e, evidence, e);
                assert(hv.take(i + 1).map_values(|h: RetrievalHitView| hit_evidence(h)) =~= hv.take(
                    i as int,
                ).map_values(|h: RetrievalHitView| hit_evidence(h)).push(hit_evidence(hv[i as int])));
            }
            i = i + 1;
        }
        assert(hv.take(hits.len() as int) =~= hv);
        let mut objective = String::new();
        objective.append("Answer the research question: ");
        objective.append(query);
        PromptContext {
            workspace_name: copy_string(&workspace.name),
            objective,
            evidence: strings_of(&evidence),
        }
    }

    /// The answer text for a question, its hits and the model's response (see
    /// `spec_answer_text`).
    pub fn answer_text(&self, query: &str, hits: &Vec<RetrievalHit>, response: &LlmResponse) -> (r: String)
        ensures
            r@ == spec_answer_text(query@, hit_views(hits@), response@),
    {
        let mut out = String::new();
        out.append("Question: ");
        out.append(query);
        out.append("\n\nOriginal Content:\n");
        out.append(list_original_content(hits).as_str());
        out.append("\n\nSystem Summary:\n");
        out.append(response.summary.as_str());
        out.append("\n\nInference:\n");
        out.append(response.inference.as_str());
        out.append("\n\nCitations:\n");
        out.append(string_of(&citation_lines(hits)).as_str());
        out
    }

    /// The prompt for a report over every section of the corpus (see
    /// `spec_report_prompt`).
    pub fn report_prompt(&self, workspace: &Workspace, corpus: &WorkspaceCorpus, kind: ReportKind) -> (r: PromptContext)
        requires
            sections_have_documents(corpus.section_views(), corpus.document_views()),
        ensures
            r@ == spec_report_prompt(
                workspace.name@,
                corpus.section_views(),
                corpus.document_views(),
                kind,
            ),
    {
        let ghost sv = corpus.section_views();
        let ghost dv = corpus.document_views();
        let mut evidence: Vec<Vec<char>> = Vec::new();
        let mut i: usize = 0;
        while i < corpus.sections.len()
            invariant
                sv == corpus.section_views(),
                dv == corpus.document_views(),
                sections_have_documents(sv, dv),
                i <= corpus.sections.len(),
                evidence.deep_view() == sv.take(i as int).map_values(
                    |s: SectionView| evidence_entry(section_document(dv, s).title, s.heading, s.content),
                ),
            decreases corpus.sections.len() - i,
        {
            let section = &corpus.sections[i];
            assert(sv[i as int] == section@);
            let d = document_index(corpus, section);
            let e = entry_of(&corpus.documents[d].title, &section.heading, &section.content);
            let ghost old_e = evidence;
            evidence.push(e);
            proof {
                lemma_deep_view_push(old_e, evidence, e);
                assert(sv.take(i + 1).map_values(
                    |s: SectionView| evidence_entry(section_document(dv, s).title, s.heading, s.content),
                ) =~= sv.take(i as int).map_values(
                    |s: SectionView| evidence_entry(section_document(dv, s).title, s.heading, s.content),
                ).push(evidence_entry(section_document(dv, section@).title, section@.heading, section@.content)));
            }
            i = i + 1;
        }
        assert(sv.take(corpus.sections.len() as int) =~= sv);
        PromptContext {
            workspace_name: copy_string(&workspace.name),
            objective: objective_of(kind).to_owned(),
            evidence: strings_of(&evidence),
        }
    }

    /// The report text for the corpus and the model's response (see
    /// `spec_report_text`).
    pub fn report_text(
        &self,
        workspace: &Workspace,
        corpus: &WorkspaceCorpus,
        kind: ReportKind,
        response: &LlmResponse,
    ) -> (r: String)
        requires
            sections_have_documents(corpus.section_views(), corpus.document_views()),
        ensures
            r@ == spec_report_text(
                workspace.name@,
                corpus.section_views(),
                corpus.document_views(),
                kind,
                response@,
            ),
    {
        let ghost sv = corpus.section_views();
        let ghost dv = corpus.document_views();
        let mut ls: Vec<Vec<char>> = Vec::new();
        let mut i: usize = 0;
        while i < corpus.sections.len()
            invariant
                sv == corpus.section_views(),
                dv == corpus.document_views(),
                sections_have_documents(sv, dv),
                i <= corpus.sections.len(),
                ls.deep_view() == sv.take(i as int).map_values(|s: SectionView| citation_map_line(dv, s)),
            decreases corpus.sections.len() - i,
        {
            let section = &corpus.sections[i];
            assert(sv[i as int] == section@);
            let d = document_index(corpus, section);
            let mut l = chars_of("- ");
            append_chars(&mut l, &chars_of(corpus.documents[d].title.as_str()));
            append_chars(&mut l, &chars_of(" / "));
            append_chars(&mut l, &chars_of(section.heading.as_str()));
            let ghost old_ls = ls;
            ls.push(l);
            proof {
                assert(l@ =~= citation_map_line(dv, section@));
                lemma_deep_view_push(old_ls, ls, l);
                assert(sv.take(i + 1).map_values(|s: SectionView| citation_map_line(dv, s)) =~= sv.take(
                    i as int,
                ).map_values(|s: SectionView| citation_map_line(dv, s)).push(citation_map_line(dv, section@)));
            }
            i = i + 1;
        }
        assert(sv.take(corpus.sections.len() as int) =~= sv);
        let mut out = String::new();
        out.append("Workspace: ");
        out.append(workspace.name.as_str());
        out.append("\nReport: ");
        out.append(kind_name(kind));
        out.append("\n\nSystem Summary:\n");
        out.append(response.summary.as_str());
        out.append("\n\nInference:\n");
        out.append(response.inference.as_str());
        out.append("\n\nCitation Map:\n");
        out.append(string_of(&join_chars(&ls, &chars_of("\n"))).as_str());
        out
    }
}

} // verus!
