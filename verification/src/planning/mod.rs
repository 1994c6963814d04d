//! Deterministic plan control.
pub mod accepted;
pub mod cli;
pub mod completion;
pub mod context;
pub mod flags;
pub mod intents;
pub mod lifecycle;
pub mod model;
pub mod plan;
pub mod prepared;
pub mod scope;
pub mod shown;
pub mod stages;
pub mod validation;
