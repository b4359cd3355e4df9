pub mod mock;
pub mod openai;
pub mod provider;
