pub mod workspace_store;
