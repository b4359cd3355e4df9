pub mod chunk;
pub mod citation;
pub mod document;
pub mod section;
pub mod timestamp;
pub mod workspace;
