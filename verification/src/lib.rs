pub mod domain;
pub mod model;
pub mod tree_laws;
pub mod text;
pub mod providers;
pub mod orchestrator;
pub mod storage;
pub mod cli;
pub mod workflow;
pub mod tui;
pub mod review;
pub mod amp_stream;
pub mod context_laws;
pub mod keys;
