//! The code ontology as plain values: entities, the relations between them,
//! and the bounded packets of both that planners are shown.
use crate::text;
use vstd::prelude::*;

verus! {

/// Where a fact about the code was read.
#[derive(Debug, PartialEq, Eq)]
pub struct Provenance {
    pub repository_id: String,
    pub workspace_id: String,
    pub path: String,
    pub content_hash: String,
    /// The backend that the language of the file calls for.
    pub language_backend: String,
    /// The backend that read the file.
    pub backend: String,
}

/// Whether two provenances are the same.
pub open spec fn same_provenance(a: Provenance, b: Provenance) -> bool {
    &&& a.repository_id@ == b.repository_id@
    &&& a.workspace_id@ == b.workspace_id@
    &&& a.path@ == b.path@
    &&& a.content_hash@ == b.content_hash@
    &&& a.language_backend@ == b.language_backend@
    &&& a.backend@ == b.backend@
}

impl Provenance {
    pub fn same(&self, other: &Self) -> (r: bool)
        ensures
            r == same_provenance(*self, *other),
    {
        text::same(self.repository_id.as_str(), other.repository_id.as_str()) && text::same(
            self.workspace_id.as_str(),
            other.workspace_id.as_str(),
        ) && text::same(self.path.as_str(), other.path.as_str()) && text::same(
            self.content_hash.as_str(),
            other.content_hash.as_str(),
        ) && text::same(self.language_backend.as_str(), other.language_backend.as_str())
            && text::same(self.backend.as_str(), other.backend.as_str())
    }
}

impl Clone for Provenance {
    fn clone(&self) -> (r: Self)
        ensures
            r == *self,
    {
        Provenance {
            repository_id: self.repository_id.clone(),
            workspace_id: self.workspace_id.clone(),
            path: self.path.clone(),
            content_hash: self.content_hash.clone(),
            language_backend: self.language_backend.clone(),
            backend: self.backend.clone(),
        }
    }
}

/// Whether two lists of provenances are the same.
pub open spec fn same_support(a: Seq<Provenance>, b: Seq<Provenance>) -> bool {
    &&& a.len() == b.len()
    &&& forall|i: int| 0 <= i < a.len() ==> same_provenance(#[trigger] a[i], b[i])
}

pub fn support_same(a: &Vec<Provenance>, b: &Vec<Provenance>) -> (r: bool)
    ensures
        r == same_support(a@, b@),
{
    if a.len() != b.len() {
        return false;
    }
    let mut i: usize = 0;
    while i < a.len()
        invariant
            i <= a@.len(),
            a@.len() == b@.len(),
            forall|j: int| 0 <= j < i ==> same_provenance(#[trigger] a@[j], b@[j]),
        decreases a@.len() - i,
    {
        if !a[i].same(&b[i]) {
            assert(!same_provenance(a@[i as int], b@[i as int]));
            return false;
        }
        i += 1;
    }
    true
}

pub fn copied_support(v: &Vec<Provenance>) -> (r: Vec<Provenance>)
    ensures
        r@ == v@,
{
    let mut out: Vec<Provenance> = Vec::new();
    let mut i: usize = 0;
    while i < v.len()
        invariant
            i <= v@.len(),
            out@ == v@.take(i as int),
        decreases v@.len() - i,
    {
        out.push(v[i].clone());
        i += 1;
        assert(out@ =~= v@.take(i as int));
    }
    assert(out@ =~= v@);
    out
}

/// Whether a provenance is among others.
pub open spec fn supported(support: Seq<Provenance>, p: Provenance) -> bool {
    exists|i: int| 0 <= i < support.len() && same_provenance(#[trigger] support[i], p)
}

pub fn is_supported(support: &Vec<Provenance>, p: &Provenance) -> (r: bool)
    ensures
        r == supported(support@, *p),
{
    let mut i: usize = 0;
    while i < support.len()
        invariant
            i <= support@.len(),
            forall|j: int| 0 <= j < i ==> !same_provenance(#[trigger] support@[j], *p),
        decreases support@.len() - i,
    {
        if support[i].same(p) {
            return true;
        }
        i += 1;
    }
    false
}

/// What an entity is: a whole file, a module, or a named item inside one.
#[derive(Debug, Clone, Copy, PartialEq, Eq, Structural)]
pub enum EntityKind {
    File,
    Module,
    Item,
}

/// The part of a file that defines an entity.
#[derive(Debug, Clone, Copy, PartialEq, Eq, Structural)]
pub struct SourceRange {
    pub start_byte: usize,
    pub end_byte: usize,
    pub start_line: usize,
    pub end_line: usize,
}

/// Something the index knows by name.
#[derive(Debug, PartialEq, Eq)]
pub struct Entity {
    pub id: String,
    pub kind: EntityKind,
    pub name: String,
    pub qualified_name: String,
    pub signature: String,
    pub visibility: Option<String>,
    pub range: SourceRange,
    pub provenance: Provenance,
}

impl Clone for Entity {
    fn clone(&self) -> (r: Self)
        ensures
            r == *self,
    {
        Entity {
            id: self.id.clone(),
            kind: self.kind,
            name: self.name.clone(),
            qualified_name: self.qualified_name.clone(),
            signature: self.signature.clone(),
            visibility: self.visibility.clone(),
            range: self.range,
            provenance: self.provenance.clone(),
        }
    }
}

/// A relation from one entity to another; one that could not be resolved has
/// no target.
#[derive(Debug, PartialEq, Eq)]
pub struct Edge {
    pub id: String,
    pub source: String,
    pub target: Option<String>,
    pub kind: String,
    pub resolution: Option<String>,
    pub provenance: Provenance,
}

impl Clone for Edge {
    fn clone(&self) -> (r: Self)
        ensures
            r == *self,
    {
        Edge {
            id: self.id.clone(),
            source: self.source.clone(),
            target: self.target.clone(),
            kind: self.kind.clone(),
            resolution: self.resolution.clone(),
            provenance: self.provenance.clone(),
        }
    }
}

/// A generation of the accepted ontology.
#[derive(Debug, PartialEq, Eq)]
pub struct GraphGeneration {
    pub sequence: u64,
    pub fingerprint: String,
}

impl Clone for GraphGeneration {
    fn clone(&self) -> (r: Self)
        ensures
            r == *self,
    {
        GraphGeneration { sequence: self.sequence, fingerprint: self.fingerprint.clone() }
    }
}

/// Whether two optional generations are the same.
pub open spec fn same_generation(a: Option<GraphGeneration>, b: Option<GraphGeneration>) -> bool {
    match (a, b) {
        (Some(x), Some(y)) => x.sequence == y.sequence && x.fingerprint@ == y.fingerprint@,
        (None, None) => true,
        _ => false,
    }
}

pub fn generation_same(a: &Option<GraphGeneration>, b: &Option<GraphGeneration>) -> (r: bool)
    ensures
        r == same_generation(*a, *b),
{
    match (a, b) {
        (Some(x), Some(y)) => x.sequence == y.sequence && text::same(
            x.fingerprint.as_str(),
            y.fingerprint.as_str(),
        ),
        (None, None) => true,
        _ => false,
    }
}

/// The bounded part of the ontology that a planner is shown.
#[derive(Debug, PartialEq, Eq)]
pub struct ContextPacket {
    pub primary: Vec<Entity>,
    pub neighbors: Vec<Entity>,
    pub tests: Vec<Entity>,
    pub relations: Vec<Edge>,
    pub unresolved: Vec<String>,
    pub truncated: bool,
    pub generation: Option<GraphGeneration>,
}

} // verus!
