pub mod synthesizer;
