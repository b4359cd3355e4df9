pub mod structure;
