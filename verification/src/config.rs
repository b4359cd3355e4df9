//! Configuration: application paths, LLM provider settings and index settings.
use vstd::prelude::*;

use crate::error::AppError;
use crate::utils::chars::{chars_of, trim, trim_chars};
use crate::utils::copy::copy_string;
use crate::utils::paths::{path_is_absolute, path_join, spec_path_is_absolute, spec_path_join};

verus! {

pub struct AppConfig {
    pub app: AppSettings,
    pub llm: LlmConfig,
    pub index: IndexConfig,
}

/// Application name and locations (paths held as strings).
pub struct AppSettings {
    pub name: String,
    pub workspace_root: String,
    pub active_workspace_file: String,
}

pub struct LlmConfig {
    pub provider: String,
    pub model: String,
    pub timeout_secs: u64,
    pub openai: OpenAiConfig,
}

pub struct OpenAiConfig {
    pub base_url: String,
    pub api_key_env: String,
}

#[derive(Clone, Copy, PartialEq, Eq, Structural)]
pub struct IndexConfig {
    pub chunk_size: usize,
    pub chunk_overlap: usize,
    pub embedding_dimensions: usize,
    pub top_k: usize,
}

impl Clone for OpenAiConfig {
    fn clone(&self) -> (r: Self)
        ensures
            r.base_url@ == self.base_url@,
            r.api_key_env@ == self.api_key_env@,
    {
        OpenAiConfig { base_url: copy_string(&self.base_url), api_key_env: copy_string(&self.api_key_env) }
    }
}

impl Clone for LlmConfig {
    fn clone(&self) -> (r: Self)
        ensures
            r.provider@ == self.provider@,
            r.model@ == self.model@,
            r.timeout_secs == self.timeout_secs,
            r.openai.base_url@ == self.openai.base_url@,
            r.openai.api_key_env@ == self.openai.api_key_env@,
    {
        LlmConfig {
            provider: copy_string(&self.provider),
            model: copy_string(&self.model),
            timeout_secs: self.timeout_secs,
            openai: self.openai.clone(),
        }
    }
}

impl Clone for AppSettings {
    fn clone(&self) -> (r: Self)
        ensures
            r.name@ == self.name@,
            r.workspace_root@ == self.workspace_root@,
            r.active_workspace_file@ == self.active_workspace_file@,
    {
        AppSettings {
            name: copy_string(&self.name),
            workspace_root: copy_string(&self.workspace_root),
            active_workspace_file: copy_string(&self.active_workspace_file),
        }
    }
}

impl Clone for AppConfig {
    fn clone(&self) -> (r: Self)
        ensures
            r.app.name@ == self.app.name@,
            r.app.workspace_root@ == self.app.workspace_root@,
            r.app.active_workspace_file@ == self.app.active_workspace_file@,
            r.llm.provider@ == self.llm.provider@,
            r.llm.model@ == self.llm.model@,
            r.llm.timeout_secs == self.llm.timeout_secs,
            r.llm.openai.base_url@ == self.llm.openai.base_url@,
            r.llm.openai.api_key_env@ == self.llm.openai.api_key_env@,
            r.index == self.index,
    {
        AppConfig { app: self.app.clone(), llm: self.llm.clone(), index: self.index }
    }
}

/// `path` itself when absolute, else `path` under `root`.
pub open spec fn spec_join_if_relative(root: Seq<char>, path: Seq<char>) -> Seq<char> {
    if spec_path_is_absolute(path) {
        path
    } else {
        spec_path_join(root, path)
    }
}

pub fn join_if_relative(root: &str, path: &str) -> (r: String)
    ensures
        r@ == spec_join_if_relative(root@, path@),
{
    if path_is_absolute(path) {
        path.to_owned()
    } else {
        path_join(root, path)
    }
}

/// The first problem `AppConfig::validate` reports, if any.
pub open spec fn spec_config_problem(c: AppConfig) -> Option<Seq<char>> {
    if trim(c.app.name@).len() == 0 {
        Some("app.name must not be empty"@)
    } else if c.index.chunk_size == 0 {
        Some("index.chunk_size must be > 0"@)
    } else if c.index.chunk_overlap >= c.index.chunk_size {
        Some("index.chunk_overlap must be smaller than index.chunk_size"@)
    } else if c.index.embedding_dimensions == 0 {
        Some("index.embedding_dimensions must be > 0"@)
    } else if c.index.top_k == 0 {
        Some("index.top_k must be > 0"@)
    } else if trim(c.llm.model@).len() == 0 {
        Some("llm.model must not be empty"@)
    } else {
        None
    }
}

impl AppConfig {
    /// Resolves the workspace root and the active-workspace file against `root`
    /// when they are relative.
    pub fn normalize_paths(&mut self, root: &str)
        ensures
            final(self).app.workspace_root@ == spec_join_if_relative(
                root@,
                old(self).app.workspace_root@,
            ),
            final(self).app.active_workspace_file@ == spec_join_if_relative(
                root@,
                old(self).app.active_workspace_file@,
            ),
            final(self).app.name == old(self).app.name,
            final(self).llm == old(self).llm,
            final(self).index == old(self).index,
    {
        let ws = join_if_relative(root, self.app.workspace_root.as_str());
        let active = join_if_relative(root, self.app.active_workspace_file.as_str());
        self.app.workspace_root = ws;
        self.app.active_workspace_file = active;
    }

    /// Checks the settings the pipeline depends on; the error names the first
    /// one that is wrong.
    pub fn validate(&self) -> (r: Result<(), AppError>)
        ensures
            match spec_config_problem(*self) {
                None => r is Ok,
                Some(m) => r matches Err(AppError::Config(e)) && e@ == m,
            },
    {
        if trim_chars(&chars_of(self.app.name.as_str())).len() == 0 {
            return Err(AppError::Config("app.name must not be empty".to_owned()));
        }
        if self.index.chunk_size == 0 {
            return Err(AppError::Config("index.chunk_size must be > 0".to_owned()));
        }
        if self.index.chunk_overlap >= self.index.chunk_size {
            return Err(
                AppError::Config(
                    "index.chunk_overlap must be smaller than index.chunk_size".to_owned(),
                ),
            );
        }
        if self.index.embedding_dimensions == 0 {
            return Err(AppError::Config("index.embedding_dimensions must be > 0".to_owned()));
        }
        if self.index.top_k == 0 {
            return Err(AppError::Config("index.top_k must be > 0".to_owned()));
        }
        if trim_chars(&chars_of(self.llm.model.as_str())).len() == 0 {
            return Err(AppError::Config("llm.model must not be empty".to_owned()));
        }
        Ok(())
    }
}

/// A valid configuration chunks with a window larger than its overlap, embeds
/// into at least one dimension and retrieves at least one hit.
pub proof fn lemma_valid_config_bounds(c: AppConfig)
    requires
        spec_config_problem(c) is None,
    ensures
        c.index.chunk_overlap < c.index.chunk_size,
        c.index.embedding_dimensions > 0,
        c.index.top_k > 0,
{
}

} // verus!
