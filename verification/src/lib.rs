//! Deterministic control-plane logic.
pub mod error;
pub mod excerpt;
pub mod git;
pub mod graph;
pub mod ids;
pub mod json;
pub mod manifest;
pub mod planning;
pub mod protocol;
pub mod report;
pub mod repository;
pub mod runtime;
pub mod sameness;
pub mod source;
pub mod store;
pub mod text;
