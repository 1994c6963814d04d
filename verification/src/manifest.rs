//! What a worker is issued, item by item, with the authority for each.
use crate::graph::GraphGeneration;
use vstd::prelude::*;

verus! {

/// How much of a path was supplied.
#[derive(Debug, Clone, Copy, PartialEq, Eq, Structural)]
pub enum SuppliedKind {
    File,
    Excerpt,
    GraphFacts,
    Diff,
}

/// A repository path that an issued input carries content or facts of.
#[derive(Debug, PartialEq, Eq)]
pub struct SuppliedSource {
    pub path: String,
    pub kind: SuppliedKind,
    pub start_line: Option<usize>,
    pub end_line: Option<usize>,
    pub content_hash: Option<String>,
    pub truncated: bool,
}

impl Clone for SuppliedSource {
    fn clone(&self) -> (r: Self)
        ensures
            r == *self,
    {
        SuppliedSource {
            path: self.path.clone(),
            kind: self.kind,
            start_line: self.start_line,
            end_line: self.end_line,
            content_hash: self.content_hash.clone(),
            truncated: self.truncated,
        }
    }
}

/// Whose reference an issued item follows.
#[derive(Debug, Clone, Copy, PartialEq, Eq, Structural)]
pub enum Authority {
    PlannerGraphEntity,
    PlannerReadFile,
    PlannerWriteTarget,
    PlannerMemoryRef,
    PlannerVerificationRef,
    ContextDelta,
}

/// One issued item, the authority for it and its exact serialized bytes.
#[derive(Debug, PartialEq, Eq)]
pub struct IssuedItem {
    pub authority: Authority,
    pub reference: String,
    pub delta_id: Option<String>,
    pub bytes: usize,
}

/// A context delta as a manifest names it.
#[derive(Debug, PartialEq, Eq)]
pub struct DeltaManifest {
    pub delta_id: String,
    pub hash: String,
    pub bytes: usize,
    pub round: u32,
    pub parent_job_id: String,
    pub planner_approved: bool,
}

/// Everything that one job was issued.
#[derive(Debug, PartialEq, Eq)]
pub struct ContextInventory {
    pub round: Option<u32>,
    pub graph_generation: Option<GraphGeneration>,
    pub graph_version: Option<String>,
    pub truncated: bool,
    pub issued: Vec<IssuedItem>,
    pub graph_entities: Vec<String>,
    pub paths: Vec<SuppliedSource>,
    pub memory: Vec<String>,
    pub deltas: Vec<DeltaManifest>,
}

} // verus!
