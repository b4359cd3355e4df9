//! The workspace store's layout: where a workspace's files live and how stored
//! copies of source files are named.  Reading and writing the files is the
//! caller's part.
use vstd::prelude::*;

use crate::config::AppConfig;
use crate::domain::chunk::{Chunk, ChunkView};
use crate::domain::document::{Document, DocumentView};
use crate::domain::section::{Section, SectionView};
use crate::domain::timestamp::now_timestamp;
use crate::domain::workspace::Workspace;
use crate::utils::chars::{append_chars, chars_of, spec_is_ascii_alphanumeric, string_of};
use crate::utils::paths::{path_join, spec_path_join};

verus! {

/// Everything imported into a workspace.
pub struct WorkspaceCorpus {
    pub documents: Vec<Document>,
    pub sections: Vec<Section>,
    pub chunks: Vec<Chunk>,
}

impl WorkspaceCorpus {
    pub open spec fn document_views(&self) -> Seq<DocumentView> {
        self.documents@.map_values(|d: Document| d@)
    }

    pub open spec fn section_views(&self) -> Seq<SectionView> {
        self.sections@.map_values(|s: Section| s@)
    }

    pub open spec fn chunk_views(&self) -> Seq<ChunkView> {
        self.chunks@.map_values(|c: Chunk| c@)
    }
}

/// Owns the on-disk layout of workspaces under the configured root.
pub struct WorkspaceStore {
    pub config: AppConfig,
}

/// A file name with every character that is not an ASCII letter or digit
/// replaced by `-`.
pub open spec fn spec_sanitize_file_name(input: Seq<char>) -> Seq<char> {
    input.map_values(|c: char| if spec_is_ascii_alphanumeric(c) { c } else { '-' })
}

pub fn sanitize_file_name(input: &str) -> (r: String)
    ensures
        r@ == spec_sanitize_file_name(input@),
{
    let cs = chars_of(input);
    let mut out: Vec<char> = Vec::new();
    let mut i: usize = 0;
    while i < cs.len()
        invariant
            i <= cs.len(),
            out@ == spec_sanitize_file_name(cs@.take(i as int)),
        decreases cs.len() - i,
    {
        let c = cs[i];
        if ('A' <= c && c <= 'Z') || ('a' <= c && c <= 'z') || ('0' <= c && c <= '9') {
            out.push(c);
        } else {
            out.push('-');
        }
        i = i + 1;
        assert(out@ =~= spec_sanitize_file_name(cs@.take(i as int)));
    }
    assert(cs@.take(cs.len() as int) =~= cs@);
    string_of(&out)
}

/// The name of a stored source file: document id, sanitized file name and
/// extension, as `<id>-<name>.<ext>`.
pub open spec fn spec_asset_name(document_id: Seq<char>, file_name: Seq<char>, extension: Seq<char>) -> Seq<char> {
    document_id + seq!['-'] + spec_sanitize_file_name(file_name) + seq!['.'] + extension
}

pub fn asset_name(document_id: &str, file_name: &str, extension: &str) -> (r: String)
    ensures
        r@ == spec_asset_name(document_id@, file_name@, extension@),
{
    let mut out = chars_of(document_id);
    out.push('-');
    append_chars(&mut out, &chars_of(sanitize_file_name(file_name).as_str()));
    out.push('.');
    append_chars(&mut out, &chars_of(extension));
    assert(out@ =~= spec_asset_name(document_id@, file_name@, extension@));
    string_of(&out)
}

impl WorkspaceStore {
    pub fn new(config: AppConfig) -> (r: Self)
        ensures
            r.config == config,
    {
        WorkspaceStore { config }
    }

    /// The root directory of the workspace called `name`.
    pub fn workspace_dir(&self, name: &str) -> (r: String)
        ensures
            r@ == spec_path_join(self.config.app.workspace_root@, name@),
    {
        path_join(self.config.app.workspace_root.as_str(), name)
    }

    /// A new, empty workspace called `name`, rooted under the workspace root
    /// and stamped with the current time.
    pub fn new_workspace(&self, name: &str) -> (r: Workspace)
        ensures
            r.name@ == name@,
            r.root_dir@ == spec_path_join(self.config.app.workspace_root@, name@),
            r.document_ids@.len() == 0,
    {
        Workspace {
            name: name.to_owned(),
            root_dir: self.workspace_dir(name),
            created_at: now_timestamp(),
            document_ids: Vec::new(),
        }
    }

    /// Where an output is saved: `<prefix>-<slug>.md` in the workspace's
    /// `outputs` directory.
    pub fn output_file(&self, workspace: &Workspace, prefix: &str, slug: &str) -> (r: String)
        ensures
            r@ == spec_path_join(
                spec_path_join(workspace.root_dir@, "outputs"@),
                prefix@ + "-"@ + slug@ + ".md"@,
            ),
    {
        let mut name = String::new();
        name.append(prefix);
        name.append("-");
        name.append(slug);
        name.append(".md");
        path_join(path_join(workspace.root_dir.as_str(), "outputs").as_str(), name.as_str())
    }
}

} // verus!
