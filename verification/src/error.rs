//! The library's error type.
use vstd::prelude::*;

verus! {

/// Errors of the research pipeline, each carrying a human-readable message.
#[derive(Debug)]
pub enum AppError {
    Config(String),
    Ingest(String),
    Index(String),
    Workspace(String),
    Llm(String),
    Io(String),
    Serialization(String),
}

impl AppError {
    /// The message carried by the error.
    pub open spec fn spec_message(&self) -> Seq<char> {
        match self {
            AppError::Config(m) => m@,
            AppError::Ingest(m) => m@,
            AppError::Index(m) => m@,
            AppError::Workspace(m) => m@,
            AppError::Llm(m) => m@,
            AppError::Io(m) => m@,
            AppError::Serialization(m) => m@,
        }
    }

    /// The error rendered for the user: a prefix naming the kind, then the message.
    pub fn message(&self) -> (r: String)
        ensures
            r@ == self.spec_prefix() + self.spec_message(),
    {
        let (prefix, m) = match self {
            AppError::Config(m) => ("config error: ", m),
            AppError::Ingest(m) => ("ingest error: ", m),
            AppError::Index(m) => ("index error: ", m),
            AppError::Workspace(m) => ("workspace error: ", m),
            AppError::Llm(m) => ("llm error: ", m),
            AppError::Io(m) => ("io error: ", m),
            AppError::Serialization(m) => ("serialization error: ", m),
        };
        let mut out = prefix.to_owned();
        out.append(m.as_str());
        out
    }

    pub open spec fn spec_prefix(&self) -> Seq<char> {
        match self {
            AppError::Config(_) => "config error: "@,
            AppError::Ingest(_) => "ingest error: "@,
            AppError::Index(_) => "index error: "@,
            AppError::Workspace(_) => "workspace error: "@,
            AppError::Llm(_) => "llm error: "@,
            AppError::Io(_) => "io error: "@,
            AppError::Serialization(_) => "serialization error: "@,
        }
    }
}

} // verus!
