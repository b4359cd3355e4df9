//! Retrieval: resolves ranked index entries back to chunks, sections and
//! documents, with citations; adds opening sections for summary questions.
use vstd::prelude::*;

use crate::domain::chunk::{Chunk, ChunkView};
use crate::domain::citation::{Citation, CitationView};
use crate::domain::document::{Document, DocumentView};
use crate::domain::section::{Section, SectionView};
use crate::error::AppError;
use crate::index::simple_index::{IndexEntry, SimpleIndex, SimpleIndexData, lookup, merged_lookup, unique_keys};
use crate::storage::workspace_store::WorkspaceCorpus;
use crate::utils::chars::{
    chars_of, contains, contains_chars, count_class, count_in, eq_chars, join, join_chars, lower,
    lemma_utf8_len_is_byte_length, lower_chars, spec_is_cjk, split_words, string_of, trim,
    trim_chars, utf8_len, utf8_len_at_most, utf8_width, words, CharClass,
};
use crate::utils::copy::{copy_opt_string, copy_string, copy_usizes, opt_view};

verus! {

/// A retrieval query and how many hits it asks for.
pub struct RetrievalRequest {
    pub query: String,
    pub top_k: usize,
}

/// The section fields a hit needs: no content.
pub struct RetrievalSection {
    pub id: String,
    pub heading: String,
    pub level: usize,
    pub ordinal_path: Vec<usize>,
    pub parent_id: Option<String>,
}

pub struct RetrievalSectionView {
    pub id: Seq<char>,
    pub heading: Seq<char>,
    pub level: usize,
    pub ordinal_path: Seq<usize>,
    pub parent_id: Option<Seq<char>>,
}

impl View for RetrievalSection {
    type V = RetrievalSectionView;

    open spec fn view(&self) -> RetrievalSectionView {
        RetrievalSectionView {
            id: self.id@,
            heading: self.heading@,
            level: self.level,
            ordinal_path: self.ordinal_path@,
            parent_id: opt_view(self.parent_id),
        }
    }
}

pub open spec fn section_summary(s: SectionView) -> RetrievalSectionView {
    RetrievalSectionView {
        id: s.id,
        heading: s.heading,
        level: s.level,
        ordinal_path: s.ordinal_path,
        parent_id: s.parent_id,
    }
}

impl RetrievalSection {
    /// The section's id, heading, level, ordinal path and parent.
    pub fn from_section(section: &Section) -> (r: Self)
        ensures
            r@ == section_summary(section@),
    {
        RetrievalSection {
            id: copy_string(&section.id),
            heading: copy_string(&section.heading),
            level: section.level,
            ordinal_path: copy_usizes(&section.ordinal_path),
            parent_id: copy_opt_string(&section.parent_id),
        }
    }
}

/// The document fields a hit needs.
pub struct RetrievalDocument {
    pub id: String,
    pub title: String,
    pub media_type: String,
}

pub struct RetrievalDocumentView {
    pub id: Seq<char>,
    pub title: Seq<char>,
    pub media_type: Seq<char>,
}

impl View for RetrievalDocument {
    type V = RetrievalDocumentView;

    open spec fn view(&self) -> RetrievalDocumentView {
        RetrievalDocumentView { id: self.id@, title: self.title@, media_type: self.media_type@ }
    }
}

pub open spec fn document_summary(d: DocumentView) -> RetrievalDocumentView {
    RetrievalDocumentView { id: d.id, title: d.title, media_type: d.media_type }
}

impl RetrievalDocument {
    /// The document's id, title and media type.
    pub fn from_document(document: &Document) -> (r: Self)
        ensures
            r@ == document_summary(document@),
    {
        RetrievalDocument {
            id: copy_string(&document.id),
            title: copy_string(&document.title),
            media_type: copy_string(&document.media_type),
        }
    }
}

/// A retrieved chunk with its section, document and citation.
pub struct RetrievalHit {
    pub chunk: Chunk,
    pub section: RetrievalSection,
    pub document: RetrievalDocument,
    pub citation: Citation,
}

pub struct RetrievalHitView {
    pub chunk: ChunkView,
    pub section: RetrievalSectionView,
    pub document: RetrievalDocumentView,
    pub citation: CitationView,
}

impl View for RetrievalHit {
    type V = RetrievalHitView;

    open spec fn view(&self) -> RetrievalHitView {
        RetrievalHitView {
            chunk: self.chunk@,
            section: self.section@,
            document: self.document@,
            citation: self.citation@,
        }
    }
}

pub open spec fn hit_views(v: Seq<RetrievalHit>) -> Seq<RetrievalHitView> {
    v.map_values(|h: RetrievalHit| h@)
}

/// Ranks chunks through the index and expands them into evidence.
pub struct Retriever {
    pub index: SimpleIndex,
    pub default_top_k: usize,
}

// ---------------------------------------------------------------------------
// Excerpts and hits
// ---------------------------------------------------------------------------

/// The first 180 characters of the text with its whitespace runs collapsed to
/// single spaces.
pub open spec fn spec_excerpt(text: Seq<char>) -> Seq<char> {
    let compact = join(words(text), seq![' ']);
    if compact.len() > 180 {
        compact.take(180)
    } else {
        compact
    }
}

pub fn excerpt(text: &str) -> (r: String)
    ensures
        r@ == spec_excerpt(text@),
        r@.len() <= 180,
{
    let compact = join_chars(&split_words(&chars_of(text)), &[' ']);
    assert([' ']@ =~= seq![' ']);
    if compact.len() > 180 {
        let mut v = compact;
        v.truncate(180);
        string_of(&v)
    } else {
        string_of(&compact)
    }
}

/// The hit for a chunk in its section and document.
pub open spec fn spec_hit(c: ChunkView, s: SectionView, d: DocumentView) -> RetrievalHitView {
    RetrievalHitView {
        chunk: c,
        section: section_summary(s),
        document: document_summary(d),
        citation: CitationView {
            document_title: d.title,
            section_heading: s.heading,
            chunk_id: c.id,
            excerpt: spec_excerpt(c.text),
        },
    }
}

fn make_hit(chunk: &Chunk, section: &Section, document: &Document) -> (r: RetrievalHit)
    ensures
        r@ == spec_hit(chunk@, section@, document@),
{
    let c = chunk.clone();
    let s = RetrievalSection::from_section(section);
    let d = RetrievalDocument::from_document(document);
    let citation = Citation {
        document_title: copy_string(&document.title),
        section_heading: copy_string(&section.heading),
        chunk_id: copy_string(&chunk.id),
        excerpt: excerpt(chunk.text.as_str()),
    };
    RetrievalHit { chunk: c, section: s, document: d, citation }
}

// ---------------------------------------------------------------------------
// Lookups by id
// ---------------------------------------------------------------------------

/// Index of the first item whose id (by `id`) is `key`, or -1.
pub open spec fn first_with<T>(s: Seq<T>, id: spec_fn(T) -> Seq<char>, key: Seq<char>) -> int
    decreases s.len(),
{
    if s.len() == 0 {
        -1
    } else if id(s[0]) == key {
        0
    } else {
        let r = first_with(s.drop_first(), id, key);
        if r < 0 {
            -1
        } else {
            r + 1
        }
    }
}

/// Index of the last item whose id (by `id`) is `key`, or -1.
pub open spec fn last_with<T>(s: Seq<T>, id: spec_fn(T) -> Seq<char>, key: Seq<char>) -> int
    decreases s.len(),
{
    if s.len() == 0 {
        -1
    } else if id(s.last()) == key {
        s.len() - 1
    } else {
        last_with(s.drop_last(), id, key)
    }
}

pub open spec fn chunk_id_of(c: ChunkView) -> Seq<char> {
    c.id
}

pub open spec fn section_id_of(s: SectionView) -> Seq<char> {
    s.id
}

pub open spec fn document_id_of(d: DocumentView) -> Seq<char> {
    d.id
}

pub proof fn lemma_first_with_bounds<T>(s: Seq<T>, id: spec_fn(T) -> Seq<char>, key: Seq<char>)
    ensures
        -1 <= first_with(s, id, key) < s.len(),
        first_with(s, id, key) >= 0 ==> id(s[first_with(s, id, key)]) == key,
        forall|j: int|
            0 <= j < s.len() && (first_with(s, id, key) < 0 || j < first_with(s, id, key)) ==> id(
                #[trigger] s[j],
            ) != key,
    decreases s.len(),
{
    if s.len() > 0 && id(s[0]) != key {
        lemma_first_with_bounds(s.drop_first(), id, key);
        assert forall|j: int|
            0 <= j < s.len() && (first_with(s, id, key) < 0 || j < first_with(s, id, key)) implies id(
            #[trigger] s[j],
        ) != key by {
            if j > 0 {
                assert(s[j] == s.drop_first()[j - 1]);
            }
        }
    }
}

proof fn lemma_first_with_unique<T>(s: Seq<T>, id: spec_fn(T) -> Seq<char>, key: Seq<char>, i: int)
    requires
        -1 <= i < s.len(),
        i >= 0 ==> id(s[i]) == key,
        forall|j: int| 0 <= j < s.len() && (i < 0 || j < i) ==> id(#[trigger] s[j]) != key,
    ensures
        first_with(s, id, key) == i,
    decreases s.len(),
{
    if s.len() > 0 && i != 0 {
        assert(id(s[0]) != key);
        let t = s.drop_first();
        assert forall|j: int| 0 <= j < t.len() && (i - 1 < 0 || j < i - 1) implies id(#[trigger] t[j])
            != key by {
            assert(t[j] == s[j + 1]);
        }
        if i > 0 {
            assert(t[i - 1] == s[i]);
            lemma_first_with_unique(t, id, key, i - 1);
        } else {
            lemma_first_with_unique(t, id, key, -1);
        }
    }
}

proof fn lemma_last_with_unique<T>(s: Seq<T>, id: spec_fn(T) -> Seq<char>, key: Seq<char>, i: int)
    requires
        -1 <= i < s.len(),
        i >= 0 ==> id(s[i]) == key,
        forall|j: int| 0 <= j < s.len() && j > i ==> id(#[trigger] s[j]) != key,
    ensures
        last_with(s, id, key) == i,
    decreases s.len(),
{
    if s.len() > 0 && i != s.len() - 1 {
        assert(id(s[s.len() - 1]) != key);
        let t = s.drop_last();
        assert forall|j: int| 0 <= j < t.len() && j > i implies id(#[trigger] t[j]) != key by {
            assert(t[j] == s[j]);
        }
        if i >= 0 {
            assert(t[i] == s[i]);
        }
        lemma_last_with_unique(t, id, key, i);
    }
}

fn find_first_chunk(chunks: &Vec<Chunk>, key: &[char]) -> (r: Option<usize>)
    ensures
        match r {
            Some(i) => i < chunks.len() && i as int == first_with(chunks@.map_values(|c: Chunk| c@), |c: ChunkView| chunk_id_of(c), key@),
            None => first_with(chunks@.map_values(|c: Chunk| c@), |c: ChunkView| chunk_id_of(c), key@) < 0,
        },
{
    let ghost cv = chunks@.map_values(|c: Chunk| c@);
    let ghost f = |c: ChunkView| chunk_id_of(c);
    let mut i: usize = 0;
    while i < chunks.len()
        invariant
            cv == chunks@.map_values(|c: Chunk| c@),
            f == (|c: ChunkView| chunk_id_of(c)),
            i <= chunks.len(),
            forall|j: int| 0 <= j < i ==> f(#[trigger] cv[j]) != key@,
        decreases chunks.len() - i,
    {
        assert(cv[i as int] == chunks@[i as int]@);
        if eq_chars(&chars_of(chunks[i].id.as_str()), key) {
            proof {
                lemma_first_with_unique(cv, f, key@, i as int);
            }
            return Some(i);
        }
        i = i + 1;
    }
    proof {
        lemma_first_with_unique(cv, f, key@, -1);
    }
    None
}

fn find_first_section(sections: &Vec<Section>, key: &[char]) -> (r: Option<usize>)
    ensures
        match r {
            Some(i) => i < sections.len() && i as int == first_with(sections@.map_values(|s: Section| s@), |s: SectionView| section_id_of(s), key@),
            None => first_with(sections@.map_values(|s: Section| s@), |s: SectionView| section_id_of(s), key@) < 0,
        },
{
    let ghost sv = sections@.map_values(|s: Section| s@);
    let ghost f = |s: SectionView| section_id_of(s);
    let mut i: usize = 0;
    while i < sections.len()
        invariant
            sv == sections@.map_values(|s: Section| s@),
            f == (|s: SectionView| section_id_of(s)),
            i <= sections.len(),
            forall|j: int| 0 <= j < i ==> f(#[trigger] sv[j]) != key@,
        decreases sections.len() - i,
    {
        assert(sv[i as int] == sections@[i as int]@);
        if eq_chars(&chars_of(sections[i].id.as_str()), key) {
            proof {
                lemma_first_with_unique(sv, f, key@, i as int);
            }
            return Some(i);
        }
        i = i + 1;
    }
    proof {
        lemma_first_with_unique(sv, f, key@, -1);
    }
    None
}

pub(crate) fn find_first_document(documents: &Vec<Document>, key: &[char]) -> (r: Option<usize>)
    ensures
        match r {
            Some(i) => i < documents.len() && i as int == first_with(documents@.map_values(|d: Document| d@), |d: DocumentView| document_id_of(d), key@),
            None => first_with(documents@.map_values(|d: Document| d@), |d: DocumentView| document_id_of(d), key@) < 0,
        },
{
    let ghost dv = documents@.map_values(|d: Document| d@);
    let ghost f = |d: DocumentView| document_id_of(d);
    let mut i: usize = 0;
    while i < documents.len()
        invariant
            dv == documents@.map_values(|d: Document| d@),
            f == (|d: DocumentView| document_id_of(d)),
            i <= documents.len(),
            forall|j: int| 0 <= j < i ==> f(#[trigger] dv[j]) != key@,
        decreases documents.len() - i,
    {
        assert(dv[i as int] == documents@[i as int]@);
        if eq_chars(&chars_of(documents[i].id.as_str()), key) {
            proof {
                lemma_first_with_unique(dv, f, key@, i as int);
            }
            return Some(i);
        }
        i = i + 1;
    }
    proof {
        lemma_first_with_unique(dv, f, key@, -1);
    }
    None
}

fn find_last_chunk(chunks: &Vec<Chunk>, key: &[char]) -> (r: Option<usize>)
    ensures
        match r {
            Some(i) => i < chunks.len() && i as int == last_with(chunks@.map_values(|c: Chunk| c@), |c: ChunkView| chunk_id_of(c), key@),
            None => last_with(chunks@.map_values(|c: Chunk| c@), |c: ChunkView| chunk_id_of(c), key@) < 0,
        },
{
    let ghost cv = chunks@.map_values(|c: Chunk| c@);
    let ghost f = |c: ChunkView| chunk_id_of(c);
    let mut i: usize = chunks.len();
    while i > 0
        invariant
            cv == chunks@.map_values(|c: Chunk| c@),
            f == (|c: ChunkView| chunk_id_of(c)),
            i <= chunks.len(),
            forall|j: int| i <= j < cv.len() ==> f(#[trigger] cv[j]) != key@,
        decreases i,
    {
        assert(cv[i - 1] == chunks@[i - 1]@);
        if eq_chars(&chars_of(chunks[i - 1].id.as_str()), key) {
            proof {
                lemma_last_with_unique(cv, f, key@, i - 1);
            }
            return Some(i - 1);
        }
        i = i - 1;
    }
    proof {
        lemma_last_with_unique(cv, f, key@, -1);
    }
    None
}

fn find_last_section(sections: &Vec<Section>, key: &[char]) -> (r: Option<usize>)
    ensures
        match r {
            Some(i) => i < sections.len() && i as int == last_with(sections@.map_values(|s: Section| s@), |s: SectionView| section_id_of(s), key@),
            None => last_with(sections@.map_values(|s: Section| s@), |s: SectionView| section_id_of(s), key@) < 0,
        },
{
    let ghost sv = sections@.map_values(|s: Section| s@);
    let ghost f = |s: SectionView| section_id_of(s);
    let mut i: usize = sections.len();
    while i > 0
        invariant
            sv == sections@.map_values(|s: Section| s@),
            f == (|s: SectionView| section_id_of(s)),
            i <= sections.len(),
            forall|j: int| i <= j < sv.len() ==> f(#[trigger] sv[j]) != key@,
        decreases i,
    {
        assert(sv[i - 1] == sections@[i - 1]@);
        if eq_chars(&chars_of(sections[i - 1].id.as_str()), key) {
            proof {
                lemma_last_with_unique(sv, f, key@, i - 1);
            }
            return Some(i - 1);
        }
        i = i - 1;
    }
    proof {
        lemma_last_with_unique(sv, f, key@, -1);
    }
    None
}

fn find_last_document(documents: &Vec<Document>, key: &[char]) -> (r: Option<usize>)
    ensures
        match r {
            Some(i) => i < documents.len() && i as int == last_with(documents@.map_values(|d: Document| d@), |d: DocumentView| document_id_of(d), key@),
            None => last_with(documents@.map_values(|d: Document| d@), |d: DocumentView| document_id_of(d), key@) < 0,
        },
{
    let ghost dv = documents@.map_values(|d: Document| d@);
    let ghost f = |d: DocumentView| document_id_of(d);
    let mut i: usize = documents.len();
    while i > 0
        invariant
            dv == documents@.map_values(|d: Document| d@),
            f == (|d: DocumentView| document_id_of(d)),
            i <= documents.len(),
            forall|j: int| i <= j < dv.len() ==> f(#[trigger] dv[j]) != key@,
        decreases i,
    {
        assert(dv[i - 1] == documents@[i - 1]@);
        if eq_chars(&chars_of(documents[i - 1].id.as_str()), key) {
            proof {
                lemma_last_with_unique(dv, f, key@, i - 1);
            }
            return Some(i - 1);
        }
        i = i - 1;
    }
    proof {
        lemma_last_with_unique(dv, f, key@, -1);
    }
    None
}

/// The hit for chunk id `chunk_id`: the first chunk with that id, the first
/// section with the chunk's section id and the first document with its
/// document id, when all three exist.
pub open spec fn spec_hit_for_chunk_id(
    chunk_id: Seq<char>,
    chunks: Seq<ChunkView>,
    sections: Seq<SectionView>,
    documents: Seq<DocumentView>,
) -> Option<RetrievalHitView> {
    let ci = first_with(chunks, |c: ChunkView| chunk_id_of(c), chunk_id);
    if ci < 0 {
        None
    } else {
        let c = chunks[ci];
        let si = first_with(sections, |s: SectionView| section_id_of(s), c.section_id);
        let di = first_with(documents, |d: DocumentView| document_id_of(d), c.document_id);
        if si < 0 || di < 0 {
            None
        } else {
            Some(spec_hit(c, sections[si], documents[di]))
        }
    }
}

/// The hit for an index entry: the last chunk, section and document with the
/// entry's ids, when all three exist.
pub open spec fn spec_expand_entry<E>(
    e: IndexEntry<E>,
    chunks: Seq<ChunkView>,
    sections: Seq<SectionView>,
    documents: Seq<DocumentView>,
) -> Option<RetrievalHitView> {
    let ci = last_with(chunks, |c: ChunkView| chunk_id_of(c), e.chunk_id@);
    let si = last_with(sections, |s: SectionView| section_id_of(s), e.section_id@);
    let di = last_with(documents, |d: DocumentView| document_id_of(d), e.document_id@);
    if ci < 0 || si < 0 || di < 0 {
        None
    } else {
        Some(spec_hit(chunks[ci], sections[si], documents[di]))
    }
}

/// The hits of the entries, in order, skipping entries that do not resolve.
pub open spec fn expanded_hits<E>(
    entries: Seq<IndexEntry<E>>,
    chunks: Seq<ChunkView>,
    sections: Seq<SectionView>,
    documents: Seq<DocumentView>,
) -> Seq<RetrievalHitView>
    decreases entries.len(),
{
    if entries.len() == 0 {
        seq![]
    } else {
        let rest = expanded_hits(entries.drop_last(), chunks, sections, documents);
        match spec_expand_entry(entries.last(), chunks, sections, documents) {
            Some(h) => rest.push(h),
            None => rest,
        }
    }
}

/// The number of hits a request gets: its own count, at least one, capped by
/// the retriever's default (itself at least one).
pub open spec fn effective_top_k(requested: usize, default: usize) -> usize {
    let a = if requested > 1 { requested } else { 1 };
    let b = if default > 1 { default } else { 1 };
    if a < b { a } else { b }
}

/// What a retrieval over ranked entries gives: the first `effective_top_k`
/// hits that the entries resolve to, or nothing (an index error) when none
/// resolves.
pub open spec fn spec_retrieve<E>(
    requested: usize,
    default: usize,
    entries: Seq<IndexEntry<E>>,
    corpus: WorkspaceCorpus,
) -> Option<Seq<RetrievalHitView>> {
    let all = expanded_hits(entries, corpus.chunk_views(), corpus.section_views(), corpus.document_views());
    let k = effective_top_k(requested, default);
    if all.len() == 0 {
        None
    } else {
        Some(all.take(if k < all.len() { k as int } else { all.len() as int }))
    }
}

pub open spec fn empty_index_message() -> Seq<char> {
    "index is empty or no retrievable chunks were found"@
}

impl Retriever {
    pub fn new(index: SimpleIndex, default_top_k: usize) -> (r: Self)
        ensures
            r.index == index,
            r.default_top_k == default_top_k,
    {
        Retriever { index, default_top_k }
    }

    /// Merges fresh entries into the index (see `SimpleIndex::merge`).
    pub fn rebuild_index<E>(&self, current: SimpleIndexData<E>, fresh: SimpleIndexData<E>) -> (r: SimpleIndexData<E>)
        ensures
            unique_keys(r.entries@),
            forall|key: Seq<char>|
                #[trigger] lookup(r.entries@, key) == merged_lookup(current.entries@, fresh.entries@, key),
    {
        self.index.merge(current, fresh)
    }

    /// The hit for one index entry, if its chunk, section and document exist.
    pub fn expand_entry<E>(&self, entry: &IndexEntry<E>, corpus: &WorkspaceCorpus) -> (r: Option<RetrievalHit>)
        ensures
            match spec_expand_entry(
                *entry,
                corpus.chunk_views(),
                corpus.section_views(),
                corpus.document_views(),
            ) {
                Some(h) => r matches Some(x) && x@ == h,
                None => r is None,
            },
    {
        let ci = find_last_chunk(&corpus.chunks, &chars_of(entry.chunk_id.as_str()));
        let si = find_last_section(&corpus.sections, &chars_of(entry.section_id.as_str()));
        let di = find_last_document(&corpus.documents, &chars_of(entry.document_id.as_str()));
        match (ci, si, di) {
            (Some(c), Some(s), Some(d)) => {
                proof {
                    assert(corpus.chunk_views()[c as int] == corpus.chunks@[c as int]@);
                    assert(corpus.section_views()[s as int] == corpus.sections@[s as int]@);
                    assert(corpus.document_views()[d as int] == corpus.documents@[d as int]@);
                }
                Some(make_hit(&corpus.chunks[c], &corpus.sections[s], &corpus.documents[d]))
            },
            _ => None,
        }
    }

    /// Retrieves hits from index entries already in rank order (best first):
    /// the first `effective_top_k` entries that resolve to a chunk, section and
    /// document, or an index error when none does.
    pub fn retrieve<E>(
        &self,
        request: &RetrievalRequest,
        ranked: &SimpleIndexData<E>,
        corpus: &WorkspaceCorpus,
    ) -> (r: Result<Vec<RetrievalHit>, AppError>)
        ensures
            match spec_retrieve(request.top_k, self.default_top_k, ranked.entries@, *corpus) {
                None => r matches Err(AppError::Index(m)) && m@ == empty_index_message(),
                Some(hs) => r matches Ok(hits) && hit_views(hits@) == hs,
            },
    {
        let requested = if request.top_k > 1 {
            request.top_k
        } else {
            1
        };
        let default = if self.default_top_k > 1 {
            self.default_top_k
        } else {
            1
        };
        let top_k = if requested < default {
            requested
        } else {
            default
        };
        let ghost all = expanded_hits(
            ranked.entries@,
            corpus.chunk_views(),
            corpus.section_views(),
            corpus.document_views(),
        );
        let mut hits: Vec<RetrievalHit> = Vec::new();
        let mut i: usize = 0;
        while i < ranked.entries.len()
            invariant
                i <= ranked.entries.len(),
                all == expanded_hits(
                    ranked.entries@,
                    corpus.chunk_views(),
                    corpus.section_views(),
                    corpus.document_views(),
                ),
                top_k >= 1,
                hits.len() <= top_k,
                ({
                    let pre = expanded_hits(
                        ranked.entries@.take(i as int),
                        corpus.chunk_views(),
                        corpus.section_views(),
                        corpus.document_views(),
                    );
                    hit_views(hits@) == pre.take(
                        if top_k < pre.len() { top_k as int } else { pre.len() as int },
                    )
                }),
            decreases ranked.entries.len() - i,
        {
            let ghost pre = expanded_hits(
                ranked.entries@.take(i as int),
                corpus.chunk_views(),
                corpus.section_views(),
                corpus.document_views(),
            );
            proof {
                assert(ranked.entries@.take(i + 1).drop_last() =~= ranked.entries@.take(i as int));
                assert(ranked.entries@.take(i + 1).last() == ranked.entries@[i as int]);
            }
            let found = self.expand_entry(&ranked.entries[i], corpus);
            match found {
                Some(h) => {
                    if hits.len() < top_k {
                        let ghost before = hit_views(hits@);
                        hits.push(h);
                        assert(hit_views(hits@) =~= before.push(h@));
                    }
                },
                None => {},
            }
            proof {
                let post = expanded_hits(
                    ranked.entries@.take(i + 1),
                    corpus.chunk_views(),
                    corpus.section_views(),
                    corpus.document_views(),
                );
                assert(hit_views(hits@) =~= post.take(
                    if top_k < post.len() { top_k as int } else { post.len() as int },
                ));
            }
            i = i + 1;
        }
        assert(ranked.entries@.take(ranked.entries.len() as int) =~= ranked.entries@);
        if hits.len() == 0 {
            return Err(AppError::Index("index is empty or no retrievable chunks were found".to_owned()));
        }
        Ok(hits)
    }

    /// The hit for a chunk id (first chunk with the id, with its first
    /// matching section and document).
    pub fn hit_for_chunk_id(&self, chunk_id: &str, corpus: &WorkspaceCorpus) -> (r: Option<RetrievalHit>)
        ensures
            match spec_hit_for_chunk_id(
                chunk_id@,
                corpus.chunk_views(),
                corpus.section_views(),
                corpus.document_views(),
            ) {
                Some(h) => r matches Some(x) && x@ == h,
                None => r is None,
            },
    {
        let ci = find_first_chunk(&corpus.chunks, &chars_of(chunk_id));
        match ci {
            None => None,
            Some(c) => {
                let chunk = &corpus.chunks[c];
                proof {
                    assert(corpus.chunk_views()[c as int] == chunk@);
                }
                let si = find_first_section(&corpus.sections, &chars_of(chunk.section_id.as_str()));
                let di = find_first_document(&corpus.documents, &chars_of(chunk.document_id.as_str()));
                match (si, di) {
                    (Some(s), Some(d)) => {
                        proof {
                            assert(corpus.section_views()[s as int] == corpus.sections@[s as int]@);
                            assert(corpus.document_views()[d as int] == corpus.documents@[d as int]@);
                        }
                        Some(make_hit(chunk, &corpus.sections[s], &corpus.documents[d]))
                    },
                    _ => None,
                }
            },
        }
    }
}


// ---------------------------------------------------------------------------
// Summary leads
// ---------------------------------------------------------------------------

/// Whether some hit of `hs` belongs to the section with id `id`.
pub open spec fn has_section(hs: Seq<RetrievalHitView>, id: Seq<char>) -> bool {
    exists|k: int| 0 <= k < hs.len() && (#[trigger] hs[k]).section.id == id
}

/// Whether some hit of `hs` carries the chunk with id `id`.
pub open spec fn has_chunk(hs: Seq<RetrievalHitView>, id: Seq<char>) -> bool {
    exists|k: int| 0 <= k < hs.len() && (#[trigger] hs[k]).chunk.id == id
}

/// The hits in order, keeping only the first hit of each section.
pub open spec fn dedupe_by_section(hs: Seq<RetrievalHitView>) -> Seq<RetrievalHitView>
    decreases hs.len(),
{
    if hs.len() == 0 {
        seq![]
    } else {
        let rest = dedupe_by_section(hs.drop_last());
        if has_section(hs.drop_last(), hs.last().section.id) {
            rest
        } else {
            rest.push(hs.last())
        }
    }
}

/// Deduplication keeps exactly the sections that occur in the input.
proof fn lemma_dedupe_sections(hs: Seq<RetrievalHitView>, id: Seq<char>)
    ensures
        has_section(dedupe_by_section(hs), id) == has_section(hs, id),
    decreases hs.len(),
{
    if hs.len() > 0 {
        let pre = hs.drop_last();
        lemma_dedupe_sections(pre, id);
        let d = dedupe_by_section(pre);
        if has_section(hs, id) && !has_section(pre, id) {
            assert(hs.last().section.id == id) by {
                let k = choose|k: int| 0 <= k < hs.len() && (#[trigger] hs[k]).section.id == id;
                if k < hs.len() - 1 {
                    assert(pre[k] == hs[k]);
                }
            }
        }
        if has_section(pre, id) {
            let k = choose|k: int| 0 <= k < pre.len() && (#[trigger] pre[k]).section.id == id;
            assert(hs[k] == pre[k]);
        }
        if !has_section(pre, hs.last().section.id) {
            let dd = d.push(hs.last());
            assert(dd[d.len() as int] == hs.last());
            if has_section(d, id) {
                let k = choose|k: int| 0 <= k < d.len() && (#[trigger] d[k]).section.id == id;
                assert(dd[k] == d[k]);
            }
            if has_section(dd, id) {
                let k = choose|k: int| 0 <= k < dd.len() && (#[trigger] dd[k]).section.id == id;
                if k < d.len() {
                    assert(dd[k] == d[k]);
                }
            }
        }
    }
}

/// After deduplication by section, no two hits share a section, and the
/// sections that remain are exactly those of the input.
pub proof fn lemma_dedupe_by_section(hs: Seq<RetrievalHitView>)
    ensures
        forall|i: int, j: int|
            0 <= i < j < dedupe_by_section(hs).len() ==> (#[trigger] dedupe_by_section(hs)[i]).section.id
                != (#[trigger] dedupe_by_section(hs)[j]).section.id,
        forall|id: Seq<char>| has_section(dedupe_by_section(hs), id) == #[trigger] has_section(hs, id),
        dedupe_by_section(hs).len() <= hs.len(),
    decreases hs.len(),
{
    assert forall|id: Seq<char>| has_section(dedupe_by_section(hs), id) == #[trigger] has_section(hs, id) by {
        lemma_dedupe_sections(hs, id);
    }
    if hs.len() > 0 {
        let pre = hs.drop_last();
        lemma_dedupe_by_section(pre);
        let d = dedupe_by_section(pre);
        if !has_section(pre, hs.last().section.id) {
            lemma_dedupe_sections(pre, hs.last().section.id);
            let dd = d.push(hs.last());
            assert forall|i: int, j: int| 0 <= i < j < dd.len() implies (#[trigger] dd[i]).section.id
                != (#[trigger] dd[j]).section.id by {
                if j == d.len() {
                    assert(dd[i] == d[i]);
                    if d[i].section.id == hs.last().section.id {
                        assert(has_section(d, hs.last().section.id));
                    }
                } else {
                    assert(dd[i] == d[i]);
                    assert(dd[j] == d[j]);
                }
            }
        }
    }
}

/// Whether a chunk reads like body text: after trimming, at least 80 bytes,
/// at least 12 CJK characters, and no front-matter marker (isbn, cip,
/// 图书在版编目, 目录).
pub open spec fn spec_looks_like_body_lead(text: Seq<char>) -> bool {
    let t = trim(text);
    &&& utf8_len(t) >= 80
    &&& count_in(t, CharClass::Cjk) >= 12
    &&& !contains(lower(t), "isbn"@)
    &&& !contains(lower(t), "cip"@)
    &&& !contains(t, "图书在版编目"@)
    &&& !contains(t, "目录"@)
}

pub fn looks_like_body_lead(text: &str) -> (r: bool)
    ensures
        r == spec_looks_like_body_lead(text@),
{
    let t = trim_chars(&chars_of(text));
    if utf8_len_at_most(&t, 79) {
        return false;
    }
    if count_class(&t, CharClass::Cjk) < 12 {
        return false;
    }
    let l = lower_chars(&t);
    !(contains_chars(&l, &chars_of("isbn")) || contains_chars(&l, &chars_of("cip"))
        || contains_chars(&t, &chars_of("图书在版编目")) || contains_chars(&t, &chars_of("目录")))
}

/// Body text, stated over the UTF-8 bytes of the trimmed text: at least 80
/// bytes, at least 12 CJK ideographs, and none of the front-matter markers
/// (isbn or cip in any case, 图书在版编目, 目录).
pub proof fn lemma_body_lead_by_bytes(text: Seq<char>)
    ensures
        spec_looks_like_body_lead(text) <==> {
            let t = trim(text);
            &&& vstd::utf8::encode_utf8(t).len() >= 80
            &&& count_in(t, CharClass::Cjk) >= 12
            &&& !contains(lower(t), "isbn"@)
            &&& !contains(lower(t), "cip"@)
            &&& !contains(t, "图书在版编目"@)
            &&& !contains(t, "目录"@)
        },
{
    lemma_utf8_len_is_byte_length(trim(text));
}

proof fn lemma_cjk_bytes(s: Seq<char>)
    ensures
        utf8_len(s) >= 3 * count_in(s, CharClass::Cjk),
    decreases s.len(),
{
    if s.len() > 0 {
        lemma_cjk_bytes(s.drop_last());
        if spec_is_cjk(s.last()) {
            assert(utf8_width(s.last()) >= 3);
        }
    }
}

/// Every CJK ideograph takes at least three UTF-8 bytes, so a trimmed text
/// with 27 or more of them and no front-matter marker reads as body text.
pub proof fn lemma_body_lead_from_ideographs(text: Seq<char>)
    requires
        count_in(trim(text), CharClass::Cjk) >= 27,
        !contains(lower(trim(text)), "isbn"@),
        !contains(lower(trim(text)), "cip"@),
        !contains(trim(text), "图书在版编目"@),
        !contains(trim(text), "目录"@),
    ensures
        spec_looks_like_body_lead(text),
{
    lemma_cjk_bytes(trim(text));
}

/// The first chunk of each section, in section order, as a hit, while fewer
/// than `max` leads have been found: skipped are sections without chunks,
/// chunks already among `deduped` or the leads so far, chunks that do not
/// resolve, and chunks that do not read like body text.
pub open spec fn summary_leads(
    prefix: Seq<SectionView>,
    deduped: Seq<RetrievalHitView>,
    chunks: Seq<ChunkView>,
    sections: Seq<SectionView>,
    documents: Seq<DocumentView>,
    max: usize,
) -> Seq<RetrievalHitView>
    decreases prefix.len(),
{
    if prefix.len() == 0 {
        seq![]
    } else {
        let leads = summary_leads(prefix.drop_last(), deduped, chunks, sections, documents, max);
        let s = prefix.last();
        if leads.len() >= max || s.chunk_ids.len() == 0 {
            leads
        } else {
            let cid = s.chunk_ids[0];
            if has_chunk(deduped, cid) || has_chunk(leads, cid) {
                leads
            } else {
                match spec_hit_for_chunk_id(cid, chunks, sections, documents) {
                    Some(h) => if spec_looks_like_body_lead(h.chunk.text) {
                        leads.push(h)
                    } else {
                        leads
                    },
                    None => leads,
                }
            }
        }
    }
}

/// The hits after augmentation: the summary leads, then the hits deduplicated
/// by section.
pub open spec fn spec_augment(hits: Seq<RetrievalHitView>, corpus: WorkspaceCorpus, max: usize) -> Seq<RetrievalHitView> {
    let deduped = dedupe_by_section(hits);
    summary_leads(
        corpus.section_views(),
        deduped,
        corpus.chunk_views(),
        corpus.section_views(),
        corpus.document_views(),
        max,
    ) + deduped
}

/// Whether some hit of `hits` carries the chunk with id `id`.
fn has_chunk_id(hits: &Vec<RetrievalHit>, id: &[char]) -> (r: bool)
    ensures
        r == has_chunk(hit_views(hits@), id@),
{
    let ghost hv = hit_views(hits@);
    let mut k: usize = 0;
    while k < hits.len()
        invariant
            hv == hit_views(hits@),
            k <= hits.len(),
            forall|j: int| 0 <= j < k ==> (#[trigger] hv[j]).chunk.id != id@,
        decreases hits.len() - k,
    {
        assert(hv[k as int] == hits@[k as int]@);
        if eq_chars(&chars_of(hits[k].chunk.id.as_str()), id) {
            return true;
        }
        k = k + 1;
    }
    false
}

/// Whether some hit of `hits` belongs to the section with id `id`.
fn has_section_id(hits: &Vec<RetrievalHit>, id: &[char]) -> (r: bool)
    ensures
        r == has_section(hit_views(hits@), id@),
{
    let ghost hv = hit_views(hits@);
    let mut k: usize = 0;
    while k < hits.len()
        invariant
            hv == hit_views(hits@),
            k <= hits.len(),
            forall|j: int| 0 <= j < k ==> (#[trigger] hv[j]).section.id != id@,
        decreases hits.len() - k,
    {
        assert(hv[k as int] == hits@[k as int]@);
        if eq_chars(&chars_of(hits[k].section.id.as_str()), id) {
            return true;
        }
        k = k + 1;
    }
    false
}

/// The hits in order, keeping the first hit of each section.
pub fn dedupe_hits_by_section(hits: Vec<RetrievalHit>) -> (r: Vec<RetrievalHit>)
    ensures
        hit_views(r@) == dedupe_by_section(hit_views(hits@)),
{
    let ghost all = hit_views(hits@);
    let mut rest = hits;
    let n: usize = rest.len();
    assert(all.len() == n);
    let mut deduped: Vec<RetrievalHit> = Vec::new();
    let mut i: usize = 0;
    while rest.len() > 0
        invariant
            i + rest.len() == all.len(),
            all.len() <= usize::MAX,
            hit_views(rest@) == all.skip(i as int),
            hit_views(deduped@) == dedupe_by_section(all.take(i as int)),
        decreases rest.len(),
    {
        let ghost before = hit_views(rest@);
        let hit = rest.remove(0);
        proof {
            assert(hit@ == before[0]);
            assert(hit_views(rest@) =~= before.drop_first());
            assert(all.skip(i + 1) =~= all.skip(i as int).drop_first());
            assert(all[i as int] == before[0]);
            assert(all.take(i + 1).drop_last() =~= all.take(i as int));
            assert(all.take(i + 1).last() == all[i as int]);
        }
        let seen = has_section_id(&deduped, &chars_of(hit.section.id.as_str()));
        proof {
            lemma_dedupe_sections(all.take(i as int), hit@.section.id);
        }
        if !seen {
            let ghost d0 = hit_views(deduped@);
            deduped.push(hit);
            assert(hit_views(deduped@) =~= d0.push(hit@));
        }
        i = i + 1;
    }
    assert(all.take(all.len() as int) =~= all);
    deduped
}

impl Retriever {
    /// Adds opening sections for summary questions: drops later hits of a
    /// section already hit, then puts in front the first chunk of the first
    /// sections (at most `max_sections` of them) that reads like body text and
    /// is not already among the hits.
    pub fn augment_with_summary_leads(
        &self,
        hits: Vec<RetrievalHit>,
        corpus: &WorkspaceCorpus,
        max_sections: usize,
    ) -> (r: Vec<RetrievalHit>)
        ensures
            hit_views(r@) == spec_augment(hit_views(hits@), *corpus, max_sections),
    {
        let mut deduped = dedupe_hits_by_section(hits);
        let ghost dv = hit_views(deduped@);
        let ghost sv = corpus.section_views();
        let mut leads: Vec<RetrievalHit> = Vec::new();
        let mut i: usize = 0;
        while i < corpus.sections.len()
            invariant
                i <= corpus.sections.len(),
                sv == corpus.section_views(),
                dv == hit_views(deduped@),
                hit_views(leads@) == summary_leads(
                    sv.take(i as int),
                    dv,
                    corpus.chunk_views(),
                    sv,
                    corpus.document_views(),
                    max_sections,
                ),
            decreases corpus.sections.len() - i,
        {
            proof {
                assert(sv.take(i + 1).drop_last() =~= sv.take(i as int));
                assert(sv.take(i + 1).last() == sv[i as int]);
                assert(sv[i as int] == corpus.sections@[i as int]@);
            }
            let section = &corpus.sections[i];
            if leads.len() < max_sections && section.chunk_ids.len() > 0 {
                let first = chars_of(section.chunk_ids[0].as_str());
                proof {
                    assert(section.chunk_ids.deep_view()[0] == section.chunk_ids@[0]@);
                }
                if !has_chunk_id(&deduped, &first) && !has_chunk_id(&leads, &first) {
                    let found = self.hit_for_chunk_id(section.chunk_ids[0].as_str(), corpus);
                    match found {
                        Some(h) => {
                            if looks_like_body_lead(h.chunk.text.as_str()) {
                                let ghost l0 = hit_views(leads@);
                                leads.push(h);
                                assert(hit_views(leads@) =~= l0.push(h@));
                            }
                        },
                        None => {},
                    }
                }
            }
            i = i + 1;
        }
        assert(sv.take(corpus.sections.len() as int) =~= sv);
        let ghost l1 = hit_views(leads@);
        leads.append(&mut deduped);
        assert(hit_views(leads@) =~= l1 + dv);
        leads
    }
}


// ---------------------------------------------------------------------------
// Laws
// ---------------------------------------------------------------------------

/// A hit cites itself: its citation names its own chunk, document title and
/// section heading, with an excerpt of at most 180 characters.
pub open spec fn cites_itself(h: RetrievalHitView) -> bool {
    &&& h.citation.chunk_id == h.chunk.id
    &&& h.citation.document_title == h.document.title
    &&& h.citation.section_heading == h.section.heading
    &&& h.citation.excerpt == spec_excerpt(h.chunk.text)
    &&& h.citation.excerpt.len() <= 180
}

proof fn lemma_expanded_hits_cite<E>(
    entries: Seq<IndexEntry<E>>,
    chunks: Seq<ChunkView>,
    sections: Seq<SectionView>,
    documents: Seq<DocumentView>,
)
    ensures
        forall|i: int|
            0 <= i < expanded_hits(entries, chunks, sections, documents).len() ==> cites_itself(
                #[trigger] expanded_hits(entries, chunks, sections, documents)[i],
            ),
        expanded_hits(entries, chunks, sections, documents).len() <= entries.len(),
    decreases entries.len(),
{
    if entries.len() > 0 {
        lemma_expanded_hits_cite(entries.drop_last(), chunks, sections, documents);
        let rest = expanded_hits(entries.drop_last(), chunks, sections, documents);
        match spec_expand_entry(entries.last(), chunks, sections, documents) {
            Some(h) => {
                let all = rest.push(h);
                assert forall|i: int| 0 <= i < all.len() implies cites_itself(#[trigger] all[i]) by {
                    if i < rest.len() {
                        assert(all[i] == rest[i]);
                    }
                }
            },
            None => {},
        }
    }
}

/// A retrieval that succeeds returns at least one and at most
/// `effective_top_k` hits, and every hit cites itself.
pub proof fn lemma_retrieved_hits<E>(
    requested: usize,
    default: usize,
    entries: Seq<IndexEntry<E>>,
    corpus: WorkspaceCorpus,
)
    ensures
        match spec_retrieve(requested, default, entries, corpus) {
            None => true,
            Some(hs) => {
                &&& 1 <= hs.len() <= effective_top_k(requested, default)
                &&& forall|i: int| 0 <= i < hs.len() ==> cites_itself(#[trigger] hs[i])
            },
        },
{
    let all = expanded_hits(entries, corpus.chunk_views(), corpus.section_views(), corpus.document_views());
    lemma_expanded_hits_cite(entries, corpus.chunk_views(), corpus.section_views(), corpus.document_views());
    match spec_retrieve(requested, default, entries, corpus) {
        None => {},
        Some(hs) => {
            assert forall|i: int| 0 <= i < hs.len() implies cites_itself(#[trigger] hs[i]) by {
                assert(hs[i] == all[i]);
            }
        },
    }
}

/// The summary leads number at most `max`; each cites itself, reads like body
/// text, and carries a chunk that is neither among `deduped` nor carried by
/// another lead.
pub proof fn lemma_summary_leads(
    prefix: Seq<SectionView>,
    deduped: Seq<RetrievalHitView>,
    chunks: Seq<ChunkView>,
    sections: Seq<SectionView>,
    documents: Seq<DocumentView>,
    max: usize,
)
    ensures
        ({
            let leads = summary_leads(prefix, deduped, chunks, sections, documents, max);
            &&& leads.len() <= max
            &&& forall|i: int|
                0 <= i < leads.len() ==> {
                    &&& cites_itself(#[trigger] leads[i])
                    &&& spec_looks_like_body_lead(leads[i].chunk.text)
                    &&& !has_chunk(deduped, leads[i].chunk.id)
                }
            &&& forall|i: int, j: int|
                0 <= i < j < leads.len() ==> (#[trigger] leads[i]).chunk.id != (#[trigger] leads[j]).chunk.id
        }),
    decreases prefix.len(),
{
    if prefix.len() > 0 {
        lemma_summary_leads(prefix.drop_last(), deduped, chunks, sections, documents, max);
        let leads = summary_leads(prefix.drop_last(), deduped, chunks, sections, documents, max);
        let s = prefix.last();
        if !(leads.len() >= max || s.chunk_ids.len() == 0) {
            let cid = s.chunk_ids[0];
            if !(has_chunk(deduped, cid) || has_chunk(leads, cid)) {
                match spec_hit_for_chunk_id(cid, chunks, sections, documents) {
                    Some(h) => {
                        if spec_looks_like_body_lead(h.chunk.text) {
                            let f = |c: ChunkView| chunk_id_of(c);
                            lemma_first_with_bounds(chunks, f, cid);
                            assert(h.chunk.id == cid);
                            let all = leads.push(h);
                            assert forall|i: int| 0 <= i < all.len() implies {
                                &&& cites_itself(#[trigger] all[i])
                                &&& spec_looks_like_body_lead(all[i].chunk.text)
                                &&& !has_chunk(deduped, all[i].chunk.id)
                            } by {
                                if i < leads.len() {
                                    assert(all[i] == leads[i]);
                                }
                            }
                            assert forall|i: int, j: int|
                                0 <= i < j < all.len() implies (#[trigger] all[i]).chunk.id != (
                                #[trigger] all[j]).chunk.id by {
                                assert(all[i] == leads[i]);
                                if j == leads.len() {
                                    if leads[i].chunk.id == cid {
                                        assert(has_chunk(leads, cid));
                                    }
                                } else {
                                    assert(all[j] == leads[j]);
                                }
                            }
                        }
                    },
                    None => {},
                }
            }
        }
    }
}

} // verus!
