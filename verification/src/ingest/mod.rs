//! Ingest: turns a source file's bytes into normalized text, sections and
//! retrieval chunks.
pub mod markdown;
pub mod pdf;
pub mod refine;
pub mod text;

use vstd::prelude::*;

use crate::config::IndexConfig;
use crate::domain::chunk::{Chunk, ChunkView};
use crate::domain::document::Document;
use crate::domain::section::{Section, SectionView};
use crate::domain::timestamp::now_timestamp;
use crate::domain::workspace::Workspace;
use crate::error::AppError;
use crate::ingest::pdf::{spec_extract_text, Extraction};
use crate::ingest::refine::{refine_pdf_sections, spec_refine_pdf_sections};
use crate::ingest::text::spec_utf8_lossy;
use crate::parser::structure::{is_parse_of, views_of, StructureParser};
use crate::utils::chars::{chars_of, contains, string_of};
use crate::utils::copy::{copy_string, copy_strings};
use crate::utils::ids::new_id;
use crate::utils::paths::{
    path_extension, path_file_name, path_join, spec_path_extension, spec_path_file_name,
    spec_path_join,
};
use crate::utils::text::{
    chunk_chars, file_stem_or_name, is_keyword_list, keywords_for_text, lemma_chunks_from_shape,
    spec_chunk_text,
    spec_detect_media_type, spec_file_stem_or_name, spec_tokenize, text_token_count,
};

verus! {

/// A parsed source file: its document record, sections and chunks, and the
/// original bytes with the file's extension and name, for storage.
pub struct IngestedDocument {
    pub document: Document,
    pub sections: Vec<Section>,
    pub chunks: Vec<Chunk>,
    pub original_bytes: Vec<u8>,
    pub original_extension: String,
    pub original_file_name: String,
}

/// Builds documents from source files with the chunking settings of the index.
pub struct DocumentIngestor {
    pub config: IndexConfig,
}

// ---------------------------------------------------------------------------
// Chunks
// ---------------------------------------------------------------------------

/// The chunk texts of a section.
pub open spec fn section_pieces(s: SectionView, cfg: IndexConfig) -> Seq<Seq<char>> {
    spec_chunk_text(s.content, cfg.chunk_size as int, cfg.chunk_overlap as int)
}

/// Number of chunks of the sections before section `k`.
pub open spec fn chunks_before(secs: Seq<SectionView>, cfg: IndexConfig, k: int) -> nat
    decreases k,
{
    if k <= 0 {
        0
    } else {
        chunks_before(secs, cfg, k - 1) + section_pieces(secs[k - 1], cfg).len()
    }
}

proof fn lemma_chunks_before_monotone(secs: Seq<SectionView>, cfg: IndexConfig, j: int, k: int)
    requires
        0 <= j <= k,
    ensures
        chunks_before(secs, cfg, j) <= chunks_before(secs, cfg, k),
    decreases k - j,
{
    if j < k {
        lemma_chunks_before_monotone(secs, cfg, j, k - 1);
    }
}

/// Chunk `c` is piece `o` of section `s` of document `doc_id`: it links back to
/// both, holds the piece, counts its tokens and carries its eight keywords.
pub open spec fn chunk_matches(c: ChunkView, doc_id: Seq<char>, s: SectionView, o: int, piece: Seq<char>) -> bool {
    &&& c.document_id == doc_id
    &&& c.section_id == s.id
    &&& c.ordinal == o
    &&& c.text == piece
    &&& c.token_count == spec_tokenize(piece).len()
    &&& is_keyword_list(spec_tokenize(piece), 8, c.keywords)
    &&& c.id.len() == 36
}

/// The chunks of a list of sections, as `build_chunks` produces them: for each
/// section in order, its pieces in order, each matched by a chunk; and each
/// section (given before chunking as `before`) lists its new chunks' ids after
/// the ids it already had.
pub open spec fn chunks_laid_out(
    before: Seq<SectionView>,
    after: Seq<SectionView>,
    chunks: Seq<ChunkView>,
    doc_id: Seq<char>,
    cfg: IndexConfig,
) -> bool {
    &&& chunks.len() == chunks_before(before, cfg, before.len() as int)
    &&& after.len() == before.len()
    &&& forall|k: int, o: int|
        0 <= k < before.len() && 0 <= o < section_pieces(before[k], cfg).len() ==> chunk_matches(
            #[trigger] chunks[chunks_before(before, cfg, k) + o],
            doc_id,
            before[k],
            o,
            section_pieces(before[k], cfg)[o],
        )
    &&& forall|k: int|
        0 <= k < before.len() ==> #[trigger] after[k] == (SectionView {
            chunk_ids: before[k].chunk_ids + Seq::new(
                section_pieces(before[k], cfg).len(),
                |o: int| chunks[chunks_before(before, cfg, k) + o].id,
            ),
            ..before[k]
        })
}

pub open spec fn chunk_views(v: Seq<Chunk>) -> Seq<ChunkView> {
    v.map_values(|c: Chunk| c@)
}

/// Every chunk is a small retrieval window linked back to its section: a
/// non-empty piece of the section's content of at most `chunk_size`
/// characters, carrying the section's and the document's ids, and listed
/// among the section's chunk ids.
pub proof fn lemma_chunks_are_section_pieces(
    before: Seq<SectionView>,
    after: Seq<SectionView>,
    chunks: Seq<ChunkView>,
    doc_id: Seq<char>,
    cfg: IndexConfig,
    k: int,
    o: int,
)
    requires
        chunks_laid_out(before, after, chunks, doc_id, cfg),
        0 <= k < before.len(),
        0 <= o < section_pieces(before[k], cfg).len(),
    ensures
        ({
            let c = chunks[chunks_before(before, cfg, k) + o];
            &&& 0 < c.text.len() <= cfg.chunk_size
            &&& contains(before[k].content, c.text)
            &&& c.section_id == before[k].id
            &&& c.document_id == doc_id
            &&& after[k].chunk_ids.contains(c.id)
        }),
{
    let c = chunks[chunks_before(before, cfg, k) + o];
    assert(chunk_matches(c, doc_id, before[k], o, section_pieces(before[k], cfg)[o]));
    lemma_chunks_from_shape(before[k].content, cfg.chunk_size as int, cfg.chunk_overlap as int, 0);
    assert(section_pieces(before[k], cfg)[o] == c.text);
    let ids = Seq::new(section_pieces(before[k], cfg).len(), |j: int| chunks[chunks_before(before, cfg, k) + j].id);
    assert(after[k].chunk_ids == before[k].chunk_ids + ids);
    assert(after[k].chunk_ids[before[k].chunk_ids.len() + o] == c.id);
}

/// Chunking ends for every section: the windows advance (`chunk_overlap <
/// chunk_size`), or every section's content fits in one window.
pub open spec fn chunkable(secs: Seq<SectionView>, cfg: IndexConfig) -> bool {
    cfg.chunk_overlap < cfg.chunk_size || forall|k: int|
        0 <= k < secs.len() ==> (#[trigger] secs[k]).content.len() <= cfg.chunk_size
}

/// Cuts every section's content into chunks, records the chunk ids on the
/// section, and returns the chunks in section order.
pub fn build_chunks(document_id: &str, sections: &mut Vec<Section>, config: &IndexConfig) -> (r: Vec<Chunk>)
    requires
        chunkable(views_of(old(sections)@), *config),
    ensures
        chunks_laid_out(
            views_of(old(sections)@),
            views_of(final(sections)@),
            chunk_views(r@),
            document_id@,
            *config,
        ),
{
    let ghost before = views_of(sections@);
    let ghost cfg = *config;
    let mut chunks: Vec<Chunk> = Vec::new();
    let mut k: usize = 0;
    while k < sections.len()
        invariant
            chunkable(before, cfg),
            cfg == *config,
            sections.len() == before.len(),
            k <= sections.len(),
            chunks.len() == chunks_before(before, cfg, k as int),
            forall|j: int| k <= j < sections.len() ==> #[trigger] sections@[j]@ == before[j],
            forall|j: int, o: int|
                0 <= j < k && 0 <= o < section_pieces(before[j], cfg).len() ==> chunk_matches(
                    #[trigger] chunk_views(chunks@)[chunks_before(before, cfg, j) + o],
                    document_id@,
                    before[j],
                    o,
                    section_pieces(before[j], cfg)[o],
                ),
            forall|j: int|
                0 <= j < k ==> #[trigger] sections@[j]@ == (SectionView {
                    chunk_ids: before[j].chunk_ids + Seq::new(
                        section_pieces(before[j], cfg).len(),
                        |o: int| chunk_views(chunks@)[chunks_before(before, cfg, j) + o].id,
                    ),
                    ..before[j]
                }),
        decreases sections.len() - k,
    {
        let ghost base = chunks_before(before, cfg, k as int);
        let ghost sk = before[k as int];
        let pieces = chunk_chars(&chars_of(sections[k].content.as_str()), config.chunk_size, config.chunk_overlap);
        assert(pieces.deep_view() == section_pieces(sk, cfg));
        let mut ids: Vec<String> = copy_strings(&sections[k].chunk_ids);
        let ghost chunks0 = chunk_views(chunks@);
        let mut o: usize = 0;
        while o < pieces.len()
            invariant
                chunkable(before, cfg),
                cfg == *config,
                sections.len() == before.len(),
                k < sections.len(),
                sections@[k as int]@ == sk,
                sk == before[k as int],
                pieces.deep_view() == section_pieces(sk, cfg),
                o <= pieces.len(),
                chunks.len() == base + o,
                chunks_before(before, cfg, k + 1) == base + pieces.len(),
                forall|x: int| 0 <= x < base ==> #[trigger] chunk_views(chunks@)[x] == chunks0[x],
                forall|p: int|
                    0 <= p < o ==> chunk_matches(
                        #[trigger] chunk_views(chunks@)[base + p],
                        document_id@,
                        sk,
                        p,
                        section_pieces(sk, cfg)[p],
                    ),
                ids.deep_view() == sk.chunk_ids + Seq::new(
                    o as nat,
                    |p: int| chunk_views(chunks@)[base + p].id,
                ),
            decreases pieces.len() - o,
        {
            let piece = string_of(&pieces[o]);
            assert(piece@ == pieces.deep_view()[o as int]);
            let id = new_id();
            let ghost idv = id@;
            let chunk = Chunk {
                id: copy_string(&id),
                document_id: document_id.to_owned(),
                section_id: copy_string(&sections[k].id),
                ordinal: o,
                token_count: text_token_count(piece.as_str()),
                keywords: keywords_for_text(piece.as_str(), 8),
                text: piece,
            };
            let ghost ids_before = ids.deep_view();
            ids.push(id);
            let ghost cb = chunk_views(chunks@);
            chunks.push(chunk);
            proof {
                assert(chunk_views(chunks@) =~= cb.push(chunk@));
                assert(ids@[ids.len() - 1].deep_view() == idv);
                assert(ids.deep_view() =~= ids_before.push(idv));
                assert(ids.deep_view() =~= sk.chunk_ids + Seq::new(
                    (o + 1) as nat,
                    |p: int| chunk_views(chunks@)[base + p].id,
                ));
            }
            o = o + 1;
        }
        let s = &sections[k];
        let updated = Section {
            id: copy_string(&s.id),
            document_id: copy_string(&s.document_id),
            heading: copy_string(&s.heading),
            level: s.level,
            ordinal_path: crate::utils::copy::copy_usizes(&s.ordinal_path),
            parent_id: crate::utils::copy::copy_opt_string(&s.parent_id),
            content: copy_string(&s.content),
            chunk_ids: ids,
        };
        let ghost sections_before = sections@;
        sections.set(k, updated);
        proof {
            assert forall|j: int, p: int|
                0 <= j < k + 1 && 0 <= p < section_pieces(before[j], cfg).len() implies chunk_matches(
                #[trigger] chunk_views(chunks@)[chunks_before(before, cfg, j) + p],
                document_id@,
                before[j],
                p,
                section_pieces(before[j], cfg)[p],
            ) by {
                if j < k {
                    lemma_chunks_before_monotone(before, cfg, j + 1, k as int);
                    assert(chunk_views(chunks@)[chunks_before(before, cfg, j) + p] == chunks0[chunks_before(before, cfg, j) + p]);
                }
            }
            assert forall|j: int| 0 <= j < k + 1 implies #[trigger] sections@[j]@ == (SectionView {
                chunk_ids: before[j].chunk_ids + Seq::new(
                    section_pieces(before[j], cfg).len(),
                    |p: int| chunk_views(chunks@)[chunks_before(before, cfg, j) + p].id,
                ),
                ..before[j]
            }) by {
                if j < k {
                    assert(sections@[j] == sections_before[j]);
                    lemma_chunks_before_monotone(before, cfg, j + 1, k as int);
                    assert(Seq::new(
                        section_pieces(before[j], cfg).len(),
                        |p: int| chunk_views(chunks@)[chunks_before(before, cfg, j) + p].id,
                    ) =~= Seq::new(
                        section_pieces(before[j], cfg).len(),
                        |p: int| chunks0[chunks_before(before, cfg, j) + p].id,
                    ));
                } else {
                    assert(updated@.chunk_ids =~= before[j].chunk_ids + Seq::new(
                        section_pieces(before[j], cfg).len(),
                        |p: int| chunk_views(chunks@)[chunks_before(before, cfg, j) + p].id,
                    ));
                }
            }
            assert forall|j: int| k + 1 <= j < sections.len() implies #[trigger] sections@[j]@ == before[j] by {
                assert(sections@[j] == sections_before[j]);
            }
        }
        k = k + 1;
    }
    chunks
}

// ---------------------------------------------------------------------------
// Documents
// ---------------------------------------------------------------------------

/// What the first phase of ingest decides for a file, given the text a PDF
/// library recovered from its bytes (used for PDFs only): its media type and
/// either its normalized text (`Some`) or a request for OCR (`None`), or the
/// ingest error.
pub open spec fn spec_extract_phase(
    path: Seq<char>,
    bytes: Seq<u8>,
    pdf_text: Option<Seq<char>>,
) -> Result<(Seq<char>, Option<Seq<char>>), Seq<char>> {
    match spec_detect_media_type(path) {
        Err(m) => Err(m),
        Ok(media) => if media == "application/pdf"@ {
            match spec_extract_text(bytes, pdf_text) {
                Ok(t) => Ok((media, t)),
                Err(m) => Err(m),
            }
        } else {
            Ok((media, Some(spec_utf8_lossy(bytes))))
        },
    }
}

/// The sections that ingest chunks: the parsed sections, refined for PDFs.
pub open spec fn sections_for_media(parsed: Seq<SectionView>, media_type: Seq<char>) -> Seq<SectionView> {
    if media_type == "application/pdf"@ {
        spec_refine_pdf_sections(parsed)
    } else {
        parsed
    }
}

pub open spec fn ids_of_sections(v: Seq<Section>) -> Seq<Seq<char>> {
    v.map_values(|s: Section| s.id@)
}

pub open spec fn ids_of_chunks(v: Seq<Chunk>) -> Seq<Seq<char>> {
    v.map_values(|c: Chunk| c.id@)
}

fn section_id_list(sections: &Vec<Section>) -> (r: Vec<String>)
    ensures
        r.deep_view() == ids_of_sections(sections@),
{
    let mut section_ids: Vec<String> = Vec::new();
    let mut i: usize = 0;
    while i < sections.len()
        invariant
            i <= sections.len(),
            section_ids.len() == i,
            section_ids.deep_view() == ids_of_sections(sections@).take(i as int),
        decreases sections.len() - i,
    {
        let id = copy_string(&sections[i].id);
        let ghost idv = id@;
        section_ids.push(id);
        proof {
            assert(section_ids@[i as int].deep_view() == idv);
        }
        i = i + 1;
        assert(section_ids.deep_view() =~= ids_of_sections(sections@).take(i as int));
    }
    assert(ids_of_sections(sections@).take(sections.len() as int) =~= ids_of_sections(sections@));
    section_ids
}

fn chunk_id_list(chunks: &Vec<Chunk>) -> (r: Vec<String>)
    ensures
        r.deep_view() == ids_of_chunks(chunks@),
{
    let mut chunk_ids: Vec<String> = Vec::new();
    let mut j: usize = 0;
    while j < chunks.len()
        invariant
            j <= chunks.len(),
            chunk_ids.len() == j,
            chunk_ids.deep_view() == ids_of_chunks(chunks@).take(j as int),
        decreases chunks.len() - j,
    {
        let id = copy_string(&chunks[j].id);
        let ghost idv = id@;
        chunk_ids.push(id);
        proof {
            assert(chunk_ids@[j as int].deep_view() == idv);
        }
        j = j + 1;
        assert(chunk_ids.deep_view() =~= ids_of_chunks(chunks@).take(j as int));
    }
    assert(ids_of_chunks(chunks@).take(chunks.len() as int) =~= ids_of_chunks(chunks@));
    chunk_ids
}

impl DocumentIngestor {
    pub fn new(config: IndexConfig) -> (r: Self)
        ensures
            r.config == config,
    {
        DocumentIngestor { config }
    }

    /// First phase of ingest: the media type from the path's extension and
    /// the normalized text of the file's bytes.  For a PDF, `pdf_text` is what
    /// the PDF library recovered from the bytes (`None` when it failed), and
    /// the fallbacks follow (`Extraction::NeedsOcr` when it looks image-only);
    /// other files ignore it.
    pub fn extract(&self, path: &str, bytes: &[u8], pdf_text: Option<String>) -> (r: Result<(String, Extraction), AppError>)
        ensures
            match spec_extract_phase(
                path@,
                bytes@,
                match pdf_text {
                    Some(t) => Some(t@),
                    None => None,
                },
            ) {
                Ok((media, Some(t))) => r matches Ok((m, Extraction::Text(x))) && m@ == media && x@ == t,
                Ok((media, None)) => r matches Ok((m, Extraction::NeedsOcr)) && m@ == media,
                Err(msg) => r matches Err(AppError::Ingest(e)) && e@ == msg,
            },
    {
        let media_type = crate::utils::text::detect_media_type(path)?;
        if crate::utils::chars::eq_chars(&chars_of(media_type.as_str()), &chars_of("application/pdf")) {
            let extraction = pdf::extract_text(bytes, pdf_text)?;
            Ok((media_type, extraction))
        } else if crate::utils::chars::eq_chars(&chars_of(media_type.as_str()), &chars_of("text/markdown")) {
            let text = markdown::extract_text(bytes)?;
            Ok((media_type, Extraction::Text(text)))
        } else {
            let text = text::extract_text(bytes)?;
            Ok((media_type, Extraction::Text(text)))
        }
    }

    /// Second phase of ingest: parses the normalized text into sections
    /// (refined for PDFs), cuts them into chunks, and records the document.
    pub fn assemble(
        &self,
        path: &str,
        bytes: Vec<u8>,
        media_type: String,
        text: &str,
        workspace: &Workspace,
    ) -> (r: IngestedDocument)
        requires
            self.config.chunk_overlap < self.config.chunk_size,
        ensures
            r.document@.title == spec_file_stem_or_name(path@),
            r.document@.source_path == path@,
            r.document@.stored_path == spec_path_join(workspace.root_dir@, "documents"@),
            r.document@.media_type == media_type@,
            r.document@.id.len() == 36,
            exists|parsed: Seq<SectionView>|
                #[trigger] is_parse_of(parsed, r.document@.id, spec_file_stem_or_name(path@), media_type@, text@)
                && chunks_laid_out(
                    sections_for_media(parsed, media_type@),
                    views_of(r.sections@),
                    chunk_views(r.chunks@),
                    r.document@.id,
                    self.config,
                ),
            r.document@.section_ids == ids_of_sections(r.sections@),
            r.document@.chunk_ids == ids_of_chunks(r.chunks@),
            r.original_bytes@ == bytes@,
            r.original_extension@ == match spec_path_extension(path@) {
                Some(e) => e,
                None => "txt"@,
            },
            r.original_file_name@ == match spec_path_file_name(path@) {
                Some(n) => n,
                None => "document"@,
            },
    {
        let ghost mt = media_type@;
        let title = file_stem_or_name(path);
        let document_id = new_id();
        let parsed = StructureParser::new().parse(document_id.as_str(), title.as_str(), media_type.as_str(), text);
        let ghost pv = views_of(parsed@);
        let mut sections = if crate::utils::chars::eq_chars(&chars_of(media_type.as_str()), &chars_of("application/pdf")) {
            refine_pdf_sections(parsed)
        } else {
            parsed
        };
        assert(views_of(sections@) == sections_for_media(pv, media_type@));
        let ghost pre = views_of(sections@);
        let chunks = build_chunks(document_id.as_str(), &mut sections, &self.config);
        let section_ids = section_id_list(&sections);
        let chunk_ids = chunk_id_list(&chunks);
        let original_extension = match path_extension(path) {
            Some(e) => e,
            None => "txt".to_owned(),
        };
        let original_file_name = match path_file_name(path) {
            Some(n) => n,
            None => "document".to_owned(),
        };
        let document = Document {
            id: document_id,
            title,
            source_path: path.to_owned(),
            stored_path: path_join(workspace.root_dir.as_str(), "documents"),
            media_type,
            imported_at: now_timestamp(),
            section_ids,
            chunk_ids,
        };
        assert(is_parse_of(pv, document.id@, spec_file_stem_or_name(path@), mt, text@)
            && chunks_laid_out(
            sections_for_media(pv, mt),
            views_of(sections@),
            chunk_views(chunks@),
            document.id@,
            self.config,
        ));
        let r = IngestedDocument {
            document,
            sections,
            chunks,
            original_bytes: bytes,
            original_extension,
            original_file_name,
        };
        assert(is_parse_of(pv, r.document@.id, spec_file_stem_or_name(path@), mt, text@)
            && chunks_laid_out(
            sections_for_media(pv, mt),
            views_of(r.sections@),
            chunk_views(r.chunks@),
            r.document@.id,
            self.config,
        ));
        r
    }
}

} // verus!
