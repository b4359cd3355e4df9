//! Workspaces: named collections of documents with their own directory.
use vstd::prelude::*;

use crate::domain::timestamp::Timestamp;
use crate::utils::copy::{copy_string, copy_strings};

verus! {

/// A workspace: its name, root directory (as a string), creation time and the
/// ids of its documents.
pub struct Workspace {
    pub name: String,
    pub root_dir: String,
    pub created_at: Timestamp,
    pub document_ids: Vec<String>,
}

pub struct WorkspaceView {
    pub name: Seq<char>,
    pub root_dir: Seq<char>,
    pub created_at: Timestamp,
    pub document_ids: Seq<Seq<char>>,
}

impl View for Workspace {
    type V = WorkspaceView;

    open spec fn view(&self) -> WorkspaceView {
        WorkspaceView {
            name: self.name@,
            root_dir: self.root_dir@,
            created_at: self.created_at,
            document_ids: self.document_ids.deep_view(),
        }
    }
}

impl Clone for Workspace {
    fn clone(&self) -> (r: Self)
        ensures
            r@ == self@,
    {
        Workspace {
            name: copy_string(&self.name),
            root_dir: copy_string(&self.root_dir),
            created_at: self.created_at,
            document_ids: copy_strings(&self.document_ids),
        }
    }
}

} // verus!
