//! Runtime decisions.
pub mod acceptance;
pub mod answers;
pub mod apart;
pub mod attempt;
pub mod auth;
pub mod boundaries;
pub mod branch;
pub mod capability;
pub mod cli;
pub mod concurrency;
pub mod config;
pub mod context;
pub mod contract;
pub mod credentials;
pub mod diffview;
pub mod dispatch;
pub mod edit;
pub mod experiment;
pub mod experiment_cli;
pub mod experiment_decisions;
pub mod experiment_events;
pub mod frames;
pub mod history;
pub mod inventory;
pub mod issue;
pub mod issued;
pub mod launches;
pub mod logins;
pub mod parcels;
pub mod proven;
pub mod reconcile;
pub mod record;
pub mod relay;
pub mod replies;
pub mod resolve;
pub mod rounds;
pub mod run;
pub mod runs;
pub mod schedule;
pub mod siblings;
pub mod trials;
pub mod turns;
pub mod verdicts;
pub mod words;
pub mod worktree;
