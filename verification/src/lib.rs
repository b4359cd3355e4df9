pub mod app;
pub mod cli;
pub mod config;
pub mod domain;
pub mod error;
pub mod index;
pub mod ingest;
pub mod llm;
pub mod parser;
pub mod retrieval;
pub mod storage;
pub mod synthesis;
pub mod utils;
