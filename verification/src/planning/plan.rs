//! The rules that an execution plan must satisfy before it is stored, activated
//! or put in the place of another.
use crate::error::{invalid, Error};
use crate::graph;
use crate::graph::Entity;
use crate::planning::model::{
    ExecutionPlan, IntegrationVerificationContract, Invariant, PlanState, PlannerPacket,
    ProjectPolicy, ReplanReference, VerificationContract,
};
use crate::planning::scope;
use crate::planning::scope::ScopePath;
use crate::planning::validation;
use crate::planning::validation::{IntentFacts, Objection, SourceFacts};
use crate::protocol;
use crate::protocol::{TaskPacket, TaskState, VerificationRequirements};
use crate::repository::RepositoryInfo;
use crate::store;
use crate::store::Store;
use crate::text;
use vstd::prelude::*;

verus! {

/// The measures of a task packet as compact JSON.
#[derive(Debug)]
pub struct TaskMeasure {
    pub bytes: usize,
    pub hash: String,
}

/// What a plan is held against, beside the records and the policy.
#[derive(Debug)]
pub struct PlanFacts {
    /// Bytes of the plan as compact JSON.
    pub plan_bytes: usize,
    /// Hash of the plan packet as compact JSON.
    pub packet_hash: String,
    /// Measures of the tasks, in the order of the plan packet.
    pub tasks: Vec<TaskMeasure>,
    /// Bytes of the verification contracts, in their order.
    pub contract_bytes: Vec<usize>,
    /// What the protocol has against the packet, the provider of its
    /// provenance, and the shape of its verification requirements.
    pub packet_refusal: Option<String>,
    pub provider_refusal: Option<String>,
    pub integration_shape: Option<String>,
    pub task_shapes: Vec<Objection>,
    pub intent: IntentFacts,
    pub source: SourceFacts,
    pub index_fresh: bool,
    pub now_ms: u64,
    /// The active canonical invariants of the repository.
    pub canonical: Vec<Invariant>,
    /// What the identifier rule has against invariant references.
    pub identifiers: Vec<Objection>,
    /// What the path rule has against scope paths.
    pub paths: Vec<Objection>,
    /// The scope paths with a symbolic link on the way.
    pub symlinked: Vec<String>,
    /// The indexed entities of the workspace.
    pub entities: Vec<Entity>,
    /// What the memory rule has against memory references.
    pub memory: Vec<Objection>,
}

// ---------------------------------------------------------------------------
// Scopes
// ---------------------------------------------------------------------------

/// Whether a requested scope covers a scope of a task.
pub open spec fn covers(parent: ScopePath, s: ScopePath) -> bool {
    scope::allows(parent, s.at()) && (parent is Directory || s is File)
}

/// Whether a scope of a task stays inside what was requested.
pub open spec fn requested(scopes: Seq<ScopePath>, s: ScopePath) -> bool {
    scopes.len() == 0 || exists|i: int| 0 <= i < scopes.len() && covers(#[trigger] scopes[i], s)
}

fn is_requested(scopes: &Vec<ScopePath>, s: &ScopePath) -> (r: bool)
    ensures
        r == requested(scopes@, *s),
{
    if scopes.len() == 0 {
        return true;
    }
    let mut i: usize = 0;
    while i < scopes.len()
        invariant
            i <= scopes@.len(),
            scopes@.len() > 0,
            forall|j: int| 0 <= j < i ==> !covers(#[trigger] scopes@[j], *s),
        decreases scopes@.len() - i,
    {
        let shape: bool = match (&scopes[i], s) {
            (ScopePath::Directory { .. }, _) => true,
            (_, ScopePath::File { .. }) => true,
            _ => false,
        };
        if shape && scope::permits(&scopes[i], s.path()) {
            assert(covers(scopes@[i as int], *s));
            return true;
        }
        i += 1;
    }
    false
}

/// Why one scope of a task is not acceptable, if anything.
pub open spec fn task_scope_refusal(
    s: ScopePath,
    write: bool,
    asked: Seq<ScopePath>,
    exclusions: Seq<ScopePath>,
    policy: ProjectPolicy,
    facts: PlanFacts,
) -> Option<Seq<char>> {
    crate::error::either(
        validation::objection(facts.paths@, s.at(), 0),
        crate::error::either(
            scope::scope_refusal(
                None,
                policy.protected@,
                s,
                write,
                text::texts(facts.symlinked@).contains(s.at()),
            ),
            if !requested(asked, s) {
                Some("task exceeds requested scope"@)
            } else if scope::any_meets(exclusions, s) {
                Some("task scope contradicts an exclusion"@)
            } else {
                None
            },
        ),
    )
}

fn task_scope(
    s: &ScopePath,
    write: bool,
    asked: &Vec<ScopePath>,
    exclusions: &Vec<ScopePath>,
    policy: &ProjectPolicy,
    facts: &PlanFacts,
) -> (r: Result<(), Error>)
    ensures
        crate::error::settles(
            r,
            task_scope_refusal(*s, write, asked@, exclusions@, *policy, *facts),
        ),
{
    match validation::unopposed(&facts.paths, s.path()) {
        Ok(()) => {},
        Err(e) => return Err(e),
    }
    let symlinked: bool = text::among(&facts.symlinked, s.path());
    match scope::safe_scope(&None, &policy.protected, s, write, symlinked) {
        Ok(()) => {},
        Err(e) => return Err(e),
    }
    if !is_requested(asked, s) {
        return invalid("task exceeds requested scope");
    }
    if scope::any_overlap(exclusions, s) {
        return invalid("task scope contradicts an exclusion");
    }
    Ok(())
}

/// Why the scopes of a task from the `i`-th on are not acceptable.
pub open spec fn task_scopes_refusal(
    scopes: Seq<ScopePath>,
    write: bool,
    asked: Seq<ScopePath>,
    exclusions: Seq<ScopePath>,
    policy: ProjectPolicy,
    facts: PlanFacts,
    i: int,
) -> Option<Seq<char>>
    decreases scopes.len() - i,
{
    if i < 0 || i >= scopes.len() {
        None
    } else {
        crate::error::either(
            task_scope_refusal(scopes[i], write, asked, exclusions, policy, facts),
            task_scopes_refusal(scopes, write, asked, exclusions, policy, facts, i + 1),
        )
    }
}

fn task_scopes(
    scopes: &Vec<ScopePath>,
    write: bool,
    asked: &Vec<ScopePath>,
    exclusions: &Vec<ScopePath>,
    policy: &ProjectPolicy,
    facts: &PlanFacts,
) -> (r: Result<(), Error>)
    ensures
        crate::error::settles(
            r,
            task_scopes_refusal(scopes@, write, asked@, exclusions@, *policy, *facts, 0),
        ),
{
    let mut i: usize = 0;
    while i < scopes.len()
        invariant
            i <= scopes@.len(),
            task_scopes_refusal(scopes@, write, asked@, exclusions@, *policy, *facts, 0)
                == task_scopes_refusal(
                scopes@,
                write,
                asked@,
                exclusions@,
                *policy,
                *facts,
                i as int,
            ),
        decreases scopes@.len() - i,
    {
        match task_scope(&scopes[i], write, asked, exclusions, policy, facts) {
            Ok(()) => {},
            Err(e) => return Err(e),
        }
        i += 1;
    }
    Ok(())
}

// ---------------------------------------------------------------------------
// References to the ontology
// ---------------------------------------------------------------------------

/// The position of an entity, looked up from the `i`-th on.
pub open spec fn entity_at(entities: Seq<Entity>, id: Seq<char>, i: int) -> Option<int>
    decreases entities.len() - i,
{
    if i < 0 || i >= entities.len() {
        None
    } else if entities[i].id@ == id {
        Some(i)
    } else {
        entity_at(entities, id, i + 1)
    }
}

pub fn find_entity(entities: &Vec<Entity>, id: &str) -> (r: Option<usize>)
    ensures
        match r {
            Some(i) => i < entities@.len() && entity_at(entities@, id@, 0) == Some(i as int)
                && entities@[i as int].id@ == id@,
            None => entity_at(entities@, id@, 0) is None,
        },
{
    let mut i: usize = 0;
    while i < entities.len()
        invariant
            i <= entities@.len(),
            entity_at(entities@, id@, 0) == entity_at(entities@, id@, i as int),
        decreases entities@.len() - i,
    {
        if text::same(entities[i].id.as_str(), id) {
            return Some(i);
        }
        i += 1;
    }
    None
}

/// Why the ontology references of a task from the `i`-th on are not
/// acceptable: each must be indexed, be supported by the prepared source, and
/// lie in the task's read scope.
pub open spec fn references_refusal(
    p: ExecutionPlan,
    task: TaskPacket,
    facts: PlanFacts,
    i: int,
) -> Option<Seq<char>>
    decreases task.graph_entities@.len() - i,
{
    if i < 0 || i >= task.graph_entities@.len() {
        None
    } else {
        match entity_at(facts.entities@, task.graph_entities@[i]@, 0) {
            None => Some(
                "graph reference "@ + task.graph_entities@[i]@ + " is missing in this workspace"@,
            ),
            Some(k) => if !graph::supported(
                p.metadata.source.support@,
                facts.entities@[k].provenance,
            ) {
                Some(
                    "graph reference is outside prepared source support; prepare context including its file"@,
                )
            } else if !scope::any_allows(task.read_scope@, facts.entities@[k].provenance.path@) {
                Some("graph reference requires explicit read scope"@)
            } else {
                references_refusal(p, task, facts, i + 1)
            },
        }
    }
}

fn references(p: &ExecutionPlan, task: &TaskPacket, facts: &PlanFacts) -> (r: Result<(), Error>)
    ensures
        crate::error::settles(r, references_refusal(*p, *task, *facts, 0)),
{
    let mut i: usize = 0;
    while i < task.graph_entities.len()
        invariant
            i <= task.graph_entities@.len(),
            references_refusal(*p, *task, *facts, 0) == references_refusal(
                *p,
                *task,
                *facts,
                i as int,
            ),
        decreases task.graph_entities@.len() - i,
    {
        let id: &str = task.graph_entities[i].as_str();
        match find_entity(&facts.entities, id) {
            None => {
                let m: String = text::join3(
                    "graph reference ",
                    id,
                    " is missing in this workspace",
                );
                return invalid(m.as_str());
            },
            Some(k) => {
                let e: &Entity = &facts.entities[k];
                if !graph::is_supported(&p.metadata.source.support, &e.provenance) {
                    return invalid(
                        "graph reference is outside prepared source support; prepare context including its file",
                    );
                }
                if !scope::any_permits(&task.read_scope, e.provenance.path.as_str()) {
                    return invalid("graph reference requires explicit read scope");
                }
            },
        }
        i += 1;
    }
    Ok(())
}

// ---------------------------------------------------------------------------
// Contracts
// ---------------------------------------------------------------------------

/// Whether every one of some keys has a prepared text.
pub open spec fn all_prepared(refs: Seq<Seq<char>>, prepared: Seq<Invariant>) -> bool {
    forall|i: int|
        0 <= i < refs.len() ==> validation::content_of(prepared, #[trigger] refs[i], 0) is Some
}

fn are_prepared(refs: &Vec<String>, prepared: &Vec<Invariant>) -> (r: bool)
    ensures
        r == all_prepared(text::texts(refs@), prepared@),
{
    let ghost all = text::texts(refs@);
    let mut i: usize = 0;
    while i < refs.len()
        invariant
            all == text::texts(refs@),
            i <= refs@.len(),
            forall|j: int|
                0 <= j < i ==> validation::content_of(prepared@, #[trigger] all[j], 0) is Some,
        decreases refs@.len() - i,
    {
        assert(all[i as int] == refs@[i as int]@);
        if validation::find_content(prepared, refs[i].as_str()).is_none() {
            assert(validation::content_of(prepared@, all[i as int], 0) is None);
            return false;
        }
        i += 1;
    }
    true
}

/// Whether an earlier contract speaks of the same task.
pub open spec fn repeats(contracts: Seq<VerificationContract>, k: int) -> bool {
    exists|j: int| 0 <= j < k && (#[trigger] contracts[j]).task_id@ == contracts[k].task_id@
}

fn is_repeated(contracts: &Vec<VerificationContract>, k: usize) -> (r: bool)
    requires
        k < contracts@.len(),
    ensures
        r == repeats(contracts@, k as int),
{
    let mut j: usize = 0;
    while j < k
        invariant
            j <= k < contracts@.len(),
            forall|i: int|
                0 <= i < j ==> (#[trigger] contracts@[i]).task_id@ != contracts@[k as int].task_id@,
        decreases k - j,
    {
        if text::same(contracts[j].task_id.as_str(), contracts[k].task_id.as_str()) {
            return true;
        }
        j += 1;
    }
    false
}

/// Why the measures and bounds of a task and its contract are not acceptable.
pub open spec fn bounds_refusal(
    contract: VerificationContract,
    contract_bytes: usize,
    task: TaskPacket,
    measure: TaskMeasure,
) -> Option<Seq<char>> {
    if !(measure.bytes <= 16384 && contract_bytes <= 8192) {
        Some("task/contract exceeds 16/8 KiB"@)
    } else if !(contract.independent_verifier && contract.task_packet_hash@ == measure.hash@) {
        Some("verification contract must independently bind the exact TaskPacket"@)
    } else if task.read_scope@.len() == 0 && task.write_scope@.len() == 0 {
        Some("task must have bounded explicit scope"@)
    } else if !(task.read_scope@.len() + task.write_scope@.len() <= 32
        && task.graph_entities@.len() <= 32 && contract.memory_refs@.len() <= 32
        && contract.exclusions@.len() <= 32) {
        Some("task reference/scope limits exceeded"@)
    } else {
        None
    }
}

fn bounds(
    contract: &VerificationContract,
    contract_bytes: usize,
    task: &TaskPacket,
    measure: &TaskMeasure,
) -> (r: Result<(), Error>)
    ensures
        crate::error::settles(r, bounds_refusal(*contract, contract_bytes, *task, *measure)),
{
    if !(measure.bytes <= 16384 && contract_bytes <= 8192) {
        return invalid("task/contract exceeds 16/8 KiB");
    }
    if !(contract.independent_verifier && text::same(
        contract.task_packet_hash.as_str(),
        measure.hash.as_str(),
    )) {
        return invalid("verification contract must independently bind the exact TaskPacket");
    }
    if task.read_scope.len() == 0 && task.write_scope.len() == 0 {
        return invalid("task must have bounded explicit scope");
    }
    let (reads, writes): (usize, usize) = (task.read_scope.len(), task.write_scope.len());
    if !(reads <= 32 && writes <= 32 && reads + writes <= 32 && task.graph_entities.len() <= 32
        && contract.memory_refs.len() <= 32 && contract.exclusions.len() <= 32) {
        return invalid("task reference/scope limits exceeded");
    }
    Ok(())
}

/// Why the references of a task are not acceptable: its checks, its invariants,
/// its scopes and its ontology references.
pub open spec fn task_refusal(
    p: ExecutionPlan,
    contract: VerificationContract,
    task: TaskPacket,
    prepared: PlannerPacket,
    policy: ProjectPolicy,
    facts: PlanFacts,
) -> Option<Seq<char>> {
    crate::error::either(
        validation::texts_refusal(text::texts(contract.non_goals@), "task non-goals"@),
        crate::error::either(
            validation::scope_paths_refusal(contract.exclusions@, facts.paths@, 0),
            crate::error::either(
                validation::checks_refusal(
                    policy,
                    task.verification,
                    validation::objection(facts.task_shapes@, task.task_id@, 0),
                ),
                crate::error::either(
                    validation::invariants_refusal(
                        text::texts(task.invariant_refs@),
                        policy.invariants@,
                        facts.canonical@,
                        facts.identifiers@,
                    ),
                    if !all_prepared(text::texts(task.invariant_refs@), prepared.context.invariants@) {
                        Some(
                            "task adds an invariant outside prepared intent; prepare a new request including it"@,
                        )
                    } else if !text::subset(
                        text::texts(prepared.request.intent.invariant_refs@),
                        text::texts(task.invariant_refs@),
                    ) {
                        Some("task omits a critical request/project invariant"@)
                    } else {
                        crate::error::either(
                            task_scopes_refusal(
                                task.read_scope@,
                                false,
                                prepared.request.intent.scope@,
                                contract.exclusions@,
                                policy,
                                facts,
                                0,
                            ),
                            crate::error::either(
                                task_scopes_refusal(
                                    task.write_scope@,
                                    true,
                                    prepared.request.intent.scope@,
                                    contract.exclusions@,
                                    policy,
                                    facts,
                                    0,
                                ),
                                references_refusal(p, task, facts, 0),
                            ),
                        )
                    },
                ),
            ),
        ),
    )
}

fn task_acceptable(
    p: &ExecutionPlan,
    contract: &VerificationContract,
    task: &TaskPacket,
    prepared: &PlannerPacket,
    policy: &ProjectPolicy,
    facts: &PlanFacts,
) -> (r: Result<(), Error>)
    ensures
        crate::error::settles(
            r,
            task_refusal(*p, *contract, *task, *prepared, *policy, *facts),
        ),
{
    match validation::validate_texts(&contract.non_goals, "task non-goals") {
        Ok(()) => {},
        Err(e) => return Err(e),
    }
    match validation::scope_paths(&contract.exclusions, &facts.paths) {
        Ok(()) => {},
        Err(e) => return Err(e),
    }
    match validation::unopposed(&facts.task_shapes, task.task_id.as_str()) {
        Ok(()) => {},
        Err(e) => return Err(e),
    }
    match validation::checks(policy, &task.verification) {
        Ok(()) => {},
        Err(e) => return Err(e),
    }
    match validation::validate_invariants(
        &task.invariant_refs,
        &policy.invariants,
        &facts.canonical,
        &facts.identifiers,
    ) {
        Ok(()) => {},
        Err(e) => return Err(e),
    }
    if !are_prepared(&task.invariant_refs, &prepared.context.invariants) {
        return invalid(
            "task adds an invariant outside prepared intent; prepare a new request including it",
        );
    }
    if !text::all_among(&prepared.request.intent.invariant_refs, &task.invariant_refs) {
        return invalid("task omits a critical request/project invariant");
    }
    let asked: &Vec<ScopePath> = &prepared.request.intent.scope;
    match task_scopes(&task.read_scope, false, asked, &contract.exclusions, policy, facts) {
        Ok(()) => {},
        Err(e) => return Err(e),
    }
    match task_scopes(&task.write_scope, true, asked, &contract.exclusions, policy, facts) {
        Ok(()) => {},
        Err(e) => return Err(e),
    }
    references(p, task, facts)
}

/// Why the contracts from the `k`-th on are not acceptable.
pub open spec fn contracts_refusal(
    p: ExecutionPlan,
    prepared: PlannerPacket,
    policy: ProjectPolicy,
    facts: PlanFacts,
    k: int,
) -> Option<Seq<char>>
    decreases p.metadata.contracts@.len() - k,
{
    if k < 0 || k >= p.metadata.contracts@.len() {
        None
    } else if repeats(p.metadata.contracts@, k) {
        Some("duplicate verification contract"@)
    } else {
        match protocol::task_at(p.packet.tasks@, p.metadata.contracts@[k].task_id@, 0) {
            None => Some("contract names an unknown task"@),
            Some(t) => crate::error::either(
                bounds_refusal(
                    p.metadata.contracts@[k],
                    facts.contract_bytes@[k],
                    p.packet.tasks@[t],
                    facts.tasks@[t],
                ),
                crate::error::either(
                    task_refusal(
                        p,
                        p.metadata.contracts@[k],
                        p.packet.tasks@[t],
                        prepared,
                        policy,
                        facts,
                    ),
                    contracts_refusal(p, prepared, policy, facts, k + 1),
                ),
            ),
        }
    }
}

fn contracts(
    p: &ExecutionPlan,
    prepared: &PlannerPacket,
    policy: &ProjectPolicy,
    facts: &PlanFacts,
) -> (r: Result<(), Error>)
    requires
        facts.tasks@.len() == p.packet.tasks@.len(),
        facts.contract_bytes@.len() == p.metadata.contracts@.len(),
    ensures
        crate::error::settles(r, contracts_refusal(*p, *prepared, *policy, *facts, 0)),
{
    let all: &Vec<VerificationContract> = &p.metadata.contracts;
    let mut k: usize = 0;
    while k < all.len()
        invariant
            all == p.metadata.contracts,
            k <= all@.len(),
            facts.tasks@.len() == p.packet.tasks@.len(),
            facts.contract_bytes@.len() == p.metadata.contracts@.len(),
            contracts_refusal(*p, *prepared, *policy, *facts, 0) == contracts_refusal(
                *p,
                *prepared,
                *policy,
                *facts,
                k as int,
            ),
        decreases all@.len() - k,
    {
        let contract: &VerificationContract = &all[k];
        if is_repeated(all, k) {
            return invalid("duplicate verification contract");
        }
        match protocol::find_task(&p.packet.tasks, contract.task_id.as_str()) {
            None => return invalid("contract names an unknown task"),
            Some(t) => {
                let task: &TaskPacket = &p.packet.tasks[t];
                match bounds(contract, facts.contract_bytes[k], task, &facts.tasks[t]) {
                    Ok(()) => {},
                    Err(e) => return Err(e),
                }
                match task_acceptable(p, contract, task, prepared, policy, facts) {
                    Ok(()) => {},
                    Err(e) => return Err(e),
                }
            },
        }
        k += 1;
    }
    Ok(())
}

// ---------------------------------------------------------------------------
// References of the whole plan
// ---------------------------------------------------------------------------

/// The ontology references of the tasks that the first `k` contracts name.
pub open spec fn graph_refs(p: ExecutionPlan, k: int) -> Seq<Seq<char>>
    decreases k,
{
    if k <= 0 {
        Seq::empty()
    } else {
        graph_refs(p, k - 1) + match protocol::task_at(
            p.packet.tasks@,
            p.metadata.contracts@[k - 1].task_id@,
            0,
        ) {
            Some(t) => text::texts(p.packet.tasks@[t].graph_entities@),
            None => Seq::empty(),
        }
    }
}

/// The memory references of the first `k` contracts.
pub open spec fn memory_refs(contracts: Seq<VerificationContract>, k: int) -> Seq<Seq<char>>
    decreases k,
{
    if k <= 0 {
        Seq::empty()
    } else {
        memory_refs(contracts, k - 1) + text::texts(contracts[k - 1].memory_refs@)
    }
}

fn collect_graph_refs(p: &ExecutionPlan) -> (r: Vec<String>)
    ensures
        text::texts(r@) == text::in_order(graph_refs(*p, p.metadata.contracts@.len() as int)),
        r@.len() == graph_refs(*p, p.metadata.contracts@.len() as int).to_set().len(),
{
    let mut out: Vec<String> = Vec::new();
    let mut k: usize = 0;
    while k < p.metadata.contracts.len()
        invariant
            k <= p.metadata.contracts@.len(),
            text::ascending(text::texts(out@)),
            forall|t: Seq<char>| #[trigger]
                text::texts(out@).contains(t) <==> graph_refs(*p, k as int).contains(t),
        decreases p.metadata.contracts@.len() - k,
    {
        let ghost so_far = text::texts(out@);
        let ghost more: Seq<Seq<char>> = match protocol::task_at(
            p.packet.tasks@,
            p.metadata.contracts@[k as int].task_id@,
            0,
        ) {
            Some(t) => text::texts(p.packet.tasks@[t].graph_entities@),
            None => Seq::empty(),
        };
        if let Some(t) = protocol::find_task(
            &p.packet.tasks,
            p.metadata.contracts[k].task_id.as_str(),
        ) {
            text::set_extend(&mut out, &p.packet.tasks[t].graph_entities);
        }
        proof {
            assert forall|t: Seq<char>| #[trigger] text::texts(out@).contains(t) <==> graph_refs(
                *p,
                k + 1,
            ).contains(t) by {
                assert(so_far.contains(t) <==> graph_refs(*p, k as int).contains(t));
                text::lemma_sum_contains(graph_refs(*p, k as int), more, t);
            }
        }
        k += 1;
    }
    proof {
        text::lemma_in_order(
            text::texts(out@),
            graph_refs(*p, p.metadata.contracts@.len() as int),
        );
    }
    out
}

fn collect_memory_refs(contracts: &Vec<VerificationContract>) -> (r: Vec<String>)
    ensures
        text::texts(r@) == text::in_order(memory_refs(contracts@, contracts@.len() as int)),
        r@.len() == memory_refs(contracts@, contracts@.len() as int).to_set().len(),
{
    let mut out: Vec<String> = Vec::new();
    let mut k: usize = 0;
    while k < contracts.len()
        invariant
            k <= contracts@.len(),
            text::ascending(text::texts(out@)),
            forall|t: Seq<char>| #[trigger]
                text::texts(out@).contains(t) <==> memory_refs(contracts@, k as int).contains(t),
        decreases contracts@.len() - k,
    {
        let ghost so_far = text::texts(out@);
        text::set_extend(&mut out, &contracts[k].memory_refs);
        proof {
            assert forall|t: Seq<char>| #[trigger] text::texts(out@).contains(t) <==> memory_refs(
                contracts@,
                k + 1,
            ).contains(t) by {
                assert(so_far.contains(t) <==> memory_refs(contracts@, k as int).contains(t));
                text::lemma_sum_contains(
                    memory_refs(contracts@, k as int),
                    text::texts(contracts@[k as int].memory_refs@),
                    t,
                );
            }
        }
        k += 1;
    }
    proof {
        text::lemma_in_order(
            text::texts(out@),
            memory_refs(contracts@, contracts@.len() as int),
        );
    }
    out
}

/// Why some subjects from the `i`-th on are opposed.
pub open spec fn first_objection(list: Seq<Objection>, subjects: Seq<Seq<char>>, i: int) -> Option<
    Seq<char>,
>
    decreases subjects.len() - i,
{
    if i < 0 || i >= subjects.len() {
        None
    } else {
        crate::error::either(
            validation::objection(list, subjects[i], 0),
            first_objection(list, subjects, i + 1),
        )
    }
}

fn all_unopposed(list: &Vec<Objection>, subjects: &Vec<String>) -> (r: Result<(), Error>)
    ensures
        crate::error::settles(r, first_objection(list@, text::texts(subjects@), 0)),
{
    let ghost all = text::texts(subjects@);
    let mut i: usize = 0;
    while i < subjects.len()
        invariant
            all == text::texts(subjects@),
            i <= subjects@.len(),
            first_objection(list@, all, 0) == first_objection(list@, all, i as int),
        decreases subjects@.len() - i,
    {
        assert(all[i as int] == subjects@[i as int]@);
        match validation::unopposed(list, subjects[i].as_str()) {
            Ok(()) => {},
            Err(e) => return Err(e),
        }
        i += 1;
    }
    Ok(())
}

// ---------------------------------------------------------------------------
// Replanning
// ---------------------------------------------------------------------------

/// Whether all of some tasks are recorded, VERIFIED where that is asked.
pub open spec fn recorded(ids: Seq<Seq<char>>, tasks: Seq<store::TaskStatus>, verified: bool) -> bool {
    forall|i: int|
        0 <= i < ids.len() ==> match store::state_of(tasks, #[trigger] ids[i], 0) {
            Some(s) => !verified || s == TaskState::Verified,
            None => false,
        }
}

fn are_recorded(ids: &Vec<String>, tasks: &Vec<store::TaskStatus>, verified: bool) -> (r: bool)
    ensures
        r == recorded(text::texts(ids@), tasks@, verified),
{
    let ghost all = text::texts(ids@);
    let mut i: usize = 0;
    while i < ids.len()
        invariant
            all == text::texts(ids@),
            i <= ids@.len(),
            forall|j: int|
                0 <= j < i ==> match store::state_of(tasks@, #[trigger] all[j], 0) {
                    Some(s) => !verified || s == TaskState::Verified,
                    None => false,
                },
        decreases ids@.len() - i,
    {
        assert(all[i as int] == ids@[i as int]@);
        let known: bool = match store::task_state(tasks, ids[i].as_str()) {
            Some(s) => !verified || s == TaskState::Verified,
            None => false,
        };
        if !known {
            assert(!(match store::state_of(tasks@, all[i as int], 0) {
                Some(s) => !verified || s == TaskState::Verified,
                None => false,
            }));
            return false;
        }
        i += 1;
    }
    true
}

/// Whether no text of one list is among another.
pub open spec fn disjoint(a: Seq<Seq<char>>, b: Seq<Seq<char>>) -> bool {
    forall|i: int| 0 <= i < a.len() ==> !b.contains(#[trigger] a[i])
}

fn are_disjoint(a: &Vec<String>, b: &Vec<String>) -> (r: bool)
    ensures
        r == disjoint(text::texts(a@), text::texts(b@)),
{
    let ghost all = text::texts(a@);
    let mut i: usize = 0;
    while i < a.len()
        invariant
            all == text::texts(a@),
            i <= a@.len(),
            forall|j: int| 0 <= j < i ==> !text::texts(b@).contains(#[trigger] all[j]),
        decreases a@.len() - i,
    {
        assert(all[i as int] == a@[i as int]@);
        if text::among(b, a[i].as_str()) {
            assert(text::texts(b@).contains(all[i as int]));
            return false;
        }
        i += 1;
    }
    true
}

pub const PLAN_NOT_FOUND: &'static str = "execution plan not found in this workspace";

/// Why a plan cannot take the place of an earlier one, if anything.
pub open spec fn replan_refusal(
    replan: ReplanReference,
    plan_id: Seq<char>,
    records: Store,
    workspace: Seq<char>,
) -> Option<Seq<char>> {
    crate::error::either(
        validation::text_refusal(replan.reason@, 1024, "replan reason"@),
        if replan.previous_plan_id@ == plan_id {
            Some("self-replan is invalid"@)
        } else {
            match store::plan_at(records.plans@, workspace, replan.previous_plan_id@, 0) {
                None => Some(PLAN_NOT_FOUND@),
                Some(k) => {
                    let prior = records.plans@[k];
                    if !(prior.view.state == PlanState::Validated || prior.view.state
                        == PlanState::Active || (prior.view.state == PlanState::Superseded
                        && validation::is_text(prior.view.superseded_by, plan_id))) {
                        Some("prior plan is terminal or was superseded by another replacement"@)
                    } else if replan.previously_verified_tasks@.len() + replan.replaced_tasks@.len()
                        > 64 {
                        Some("too many replan references"@)
                    } else if !recorded(
                        text::texts(replan.previously_verified_tasks@),
                        prior.tasks@,
                        true,
                    ) {
                        Some("replan preserved-history reference is not VERIFIED"@)
                    } else if !recorded(text::texts(replan.replaced_tasks@), prior.tasks@, false) {
                        Some("replan replaced-history task is missing"@)
                    } else if !disjoint(
                        text::texts(replan.previously_verified_tasks@),
                        text::texts(replan.replaced_tasks@),
                    ) {
                        Some("replan marks a task both retained and replaced"@)
                    } else {
                        None
                    }
                },
            }
        },
    )
}

fn replan_acceptable(
    replan: &ReplanReference,
    plan_id: &str,
    records: &Store,
    workspace: &crate::repository::WorkspaceId,
) -> (r: Result<(), Error>)
    ensures
        crate::error::settles(r, replan_refusal(*replan, plan_id@, *records, workspace@)),
{
    match validation::validate_text(replan.reason.as_str(), 1024, "replan reason") {
        Ok(()) => {},
        Err(e) => return Err(e),
    }
    if text::same(replan.previous_plan_id.as_str(), plan_id) {
        return invalid("self-replan is invalid");
    }
    match records.find_plan(workspace, replan.previous_plan_id.as_str()) {
        None => invalid(PLAN_NOT_FOUND),
        Some(k) => {
            let prior: &store::StoredPlan = &records.plans[k];
            let open: bool = match prior.view.state {
                PlanState::Validated | PlanState::Active => true,
                PlanState::Superseded => validation::holds_text(&prior.view.superseded_by, plan_id),
                _ => false,
            };
            if !open {
                return invalid("prior plan is terminal or was superseded by another replacement");
            }
            let (kept, replaced): (usize, usize) = (
                replan.previously_verified_tasks.len(),
                replan.replaced_tasks.len(),
            );
            if kept > 64 || replaced > 64 || kept + replaced > 64 {
                return invalid("too many replan references");
            }
            if !are_recorded(&replan.previously_verified_tasks, &prior.tasks, true) {
                return invalid("replan preserved-history reference is not VERIFIED");
            }
            if !are_recorded(&replan.replaced_tasks, &prior.tasks, false) {
                return invalid("replan replaced-history task is missing");
            }
            if !are_disjoint(&replan.previously_verified_tasks, &replan.replaced_tasks) {
                return invalid("replan marks a task both retained and replaced");
            }
            Ok(())
        },
    }
}

// ---------------------------------------------------------------------------
// The whole plan
// ---------------------------------------------------------------------------

/// Whether verification requirements are at least as strong as requested ones.
pub open spec fn keeps(requested: VerificationRequirements, given: VerificationRequirements) -> bool {
    text::subset(text::texts(requested.requirement_refs@), text::texts(given.requirement_refs@))
        && (!requested.evidence_required || given.evidence_required)
}

/// Why the integration contract of a plan is not acceptable, if anything.
pub open spec fn integration_refusal(
    p: ExecutionPlan,
    prepared: PlannerPacket,
    policy: ProjectPolicy,
    facts: PlanFacts,
) -> Option<Seq<char>> {
    let c = p.metadata.integration;
    crate::error::either(
        validation::checks_refusal(
            policy,
            p.packet.integration_verification,
            validation::message(facts.integration_shape),
        ),
        if (prepared.request.intent.verification matches Some(required) && !keeps(
            required,
            p.packet.integration_verification,
        )) {
            Some("integration weakens requested verification"@)
        } else if !(c.plan_id@ == p.packet.plan_id@ && c.plan_packet_hash@ == facts.packet_hash@
            && c.independent_verifier && c.require_all_task_verifications
            && c.require_final_diff_and_evidence) {
            Some("invalid/missing independent final integration contract"@)
        } else {
            crate::error::either(
                validation::texts_refusal(
                    text::texts(c.expectations@),
                    "integration expectations"@,
                ),
                if !(c.expectations@.len() > 0 && text::subset(
                    text::texts(prepared.request.intent.definition_of_done@),
                    text::texts(c.expectations@),
                )) {
                    Some("integration must carry requested done criteria"@)
                } else {
                    None
                },
            )
        },
    )
}

fn integration_acceptable(
    p: &ExecutionPlan,
    prepared: &PlannerPacket,
    policy: &ProjectPolicy,
    facts: &PlanFacts,
) -> (r: Result<(), Error>)
    ensures
        crate::error::settles(r, integration_refusal(*p, *prepared, *policy, *facts)),
{
    match validation::unless(&facts.integration_shape) {
        Ok(()) => {},
        Err(e) => return Err(e),
    }
    let given: &VerificationRequirements = &p.packet.integration_verification;
    match validation::checks(policy, given) {
        Ok(()) => {},
        Err(e) => return Err(e),
    }
    if let Some(required) = &prepared.request.intent.verification {
        if !(text::all_among(&required.requirement_refs, &given.requirement_refs) && (
        !required.evidence_required || given.evidence_required)) {
            return invalid("integration weakens requested verification");
        }
    }
    let c: &IntegrationVerificationContract = &p.metadata.integration;
    if !(text::same(c.plan_id.as_str(), p.packet.plan_id.as_str()) && text::same(
        c.plan_packet_hash.as_str(),
        facts.packet_hash.as_str(),
    ) && c.independent_verifier && c.require_all_task_verifications
        && c.require_final_diff_and_evidence) {
        return invalid("invalid/missing independent final integration contract");
    }
    match validation::validate_texts(&c.expectations, "integration expectations") {
        Ok(()) => {},
        Err(e) => return Err(e),
    }
    if !(c.expectations.len() > 0 && text::all_among(
        &prepared.request.intent.definition_of_done,
        &c.expectations,
    )) {
        return invalid("integration must carry requested done criteria");
    }
    Ok(())
}

/// Why a plan departs from its prepared request, if it does.
pub open spec fn prepared_refusal(
    p: ExecutionPlan,
    prepared: PlannerPacket,
    info: RepositoryInfo,
    policy: ProjectPolicy,
    facts: PlanFacts,
) -> Option<Seq<char>> {
    let refs = text::texts(prepared.request.intent.invariant_refs@);
    crate::error::either(
        validation::intent_refusal(prepared.request.intent, facts.intent),
        if !crate::planning::model::same_source(p.metadata.source, prepared.request.source) {
            Some("plan must preserve its prepared source assumptions"@)
        } else if p.packet.objective@ != prepared.request.intent.objective@ {
            Some("plan objective differs from durable user intent"@)
        } else if !(prepared.request.created_at_ms <= p.metadata.created_at_ms <= facts.now_ms) {
            Some("plan creation timestamp is inconsistent with request/current time"@)
        } else {
            crate::error::either(
                validation::source_refusal(p.metadata.source, info, facts.source),
                if !facts.index_fresh {
                    Some("plan validation requires a complete fresh code index"@)
                } else {
                    crate::error::either(
                        validation::invariants_refusal(
                            refs,
                            policy.invariants@,
                            facts.canonical@,
                            facts.identifiers@,
                        ),
                        if !validation::invariants_current(
                            refs,
                            policy.invariants@,
                            facts.canonical@,
                            prepared.context.invariants@,
                        ) {
                            Some("critical invariant content drifted; prepare a new request"@)
                        } else {
                            None
                        },
                    )
                },
            )
        },
    )
}

fn agrees_with_prepared(
    p: &ExecutionPlan,
    prepared: &PlannerPacket,
    info: &RepositoryInfo,
    policy: &ProjectPolicy,
    facts: &PlanFacts,
) -> (r: Result<(), Error>)
    ensures
        crate::error::settles(r, prepared_refusal(*p, *prepared, *info, *policy, *facts)),
{
    match validation::check_intent(&prepared.request.intent, &facts.intent) {
        Ok(()) => {},
        Err(e) => return Err(e),
    }
    if !p.metadata.source.same(&prepared.request.source) {
        return invalid("plan must preserve its prepared source assumptions");
    }
    if !text::same(p.packet.objective.as_str(), prepared.request.intent.objective.as_str()) {
        return invalid("plan objective differs from durable user intent");
    }
    if !(prepared.request.created_at_ms <= p.metadata.created_at_ms && p.metadata.created_at_ms
        <= facts.now_ms) {
        return invalid("plan creation timestamp is inconsistent with request/current time");
    }
    match validation::source_matches(&p.metadata.source, info, &facts.source) {
        Ok(()) => {},
        Err(e) => return Err(e),
    }
    if !facts.index_fresh {
        return invalid("plan validation requires a complete fresh code index");
    }
    let refs: &Vec<String> = &prepared.request.intent.invariant_refs;
    match validation::validate_invariants(
        refs,
        &policy.invariants,
        &facts.canonical,
        &facts.identifiers,
    ) {
        Ok(()) => {},
        Err(e) => return Err(e),
    }
    if !validation::invariants_unchanged(
        refs,
        &policy.invariants,
        &facts.canonical,
        &prepared.context.invariants,
    ) {
        return invalid("critical invariant content drifted; prepare a new request");
    }
    Ok(())
}

pub const REQUEST_NOT_FOUND: &'static str = "planning request not found in this workspace";

/// Why a plan is not acceptable, if anything: the first rule it breaks.
pub open spec fn plan_refusal(
    p: ExecutionPlan,
    records: Store,
    info: RepositoryInfo,
    policy: ProjectPolicy,
    facts: PlanFacts,
) -> Option<Seq<char>> {
    if !(facts.plan_bytes <= 262144 && p.packet.tasks@.len() <= 32) {
        Some("execution plan exceeds 256 KiB / 32 tasks"@)
    } else {
        crate::error::either(
            validation::message(facts.packet_refusal),
            crate::error::either(
                validation::provenance_refusal(p.metadata.provenance, facts.provider_refusal),
                match store::request_at(
                    records.requests@,
                    info.workspace_id@,
                    p.metadata.request_id@,
                    0,
                ) {
                    None => Some(REQUEST_NOT_FOUND@),
                    Some(k) => body_refusal(p, records, k, info, policy, facts),
                },
            ),
        )
    }
}

/// Why a plan does not follow from the `k`-th prepared request, if it does not.
pub open spec fn body_refusal(
    p: ExecutionPlan,
    records: Store,
    k: int,
    info: RepositoryInfo,
    policy: ProjectPolicy,
    facts: PlanFacts,
) -> Option<Seq<char>> {
    let prepared = records.requests@[k].packet;
    let count = p.metadata.contracts@.len() as int;
    crate::error::either(
        prepared_refusal(p, prepared, info, policy, facts),
        crate::error::either(
            integration_refusal(p, prepared, policy, facts),
            if count != p.packet.tasks@.len() {
                Some("every task requires exactly one verification contract"@)
            } else {
                crate::error::either(
                    contracts_refusal(p, prepared, policy, facts, 0),
                    if !(graph_refs(p, count).to_set().len() <= 128 && memory_refs(
                        p.metadata.contracts@,
                        count,
                    ).to_set().len() <= 128) {
                        Some("plan reference bounds exceeded"@)
                    } else {
                        crate::error::either(
                            first_objection(
                                facts.memory@,
                                text::in_order(memory_refs(p.metadata.contracts@, count)),
                                0,
                            ),
                            match p.metadata.replan {
                                Some(replan) => replan_refusal(
                                    replan,
                                    p.packet.plan_id@,
                                    records,
                                    info.workspace_id@,
                                ),
                                None => None,
                            },
                        )
                    },
                )
            },
        ),
    )
}

fn body_acceptable(
    p: &ExecutionPlan,
    records: &Store,
    k: usize,
    info: &RepositoryInfo,
    policy: &ProjectPolicy,
    facts: &PlanFacts,
) -> (r: Result<(), Error>)
    requires
        k < records.requests@.len(),
        facts.tasks@.len() == p.packet.tasks@.len(),
        facts.contract_bytes@.len() == p.metadata.contracts@.len(),
    ensures
        crate::error::settles(r, body_refusal(*p, *records, k as int, *info, *policy, *facts)),
{
    let prepared: &PlannerPacket = &records.requests[k].packet;
    match agrees_with_prepared(p, prepared, info, policy, facts) {
        Ok(()) => {},
        Err(e) => return Err(e),
    }
    match integration_acceptable(p, prepared, policy, facts) {
        Ok(()) => {},
        Err(e) => return Err(e),
    }
    if p.metadata.contracts.len() != p.packet.tasks.len() {
        return invalid("every task requires exactly one verification contract");
    }
    match contracts(p, prepared, policy, facts) {
        Ok(()) => {},
        Err(e) => return Err(e),
    }
    let entities: Vec<String> = collect_graph_refs(p);
    let memories: Vec<String> = collect_memory_refs(&p.metadata.contracts);
    if !(entities.len() <= 128 && memories.len() <= 128) {
        return invalid("plan reference bounds exceeded");
    }
    match all_unopposed(&facts.memory, &memories) {
        Ok(()) => {},
        Err(e) => return Err(e),
    }
    match &p.metadata.replan {
        Some(replan) => replan_acceptable(
            replan,
            p.packet.plan_id.as_str(),
            records,
            &info.workspace_id,
        ),
        None => Ok(()),
    }
}

/// Checks an execution plan against its prepared request, the records, project
/// policy and the checkout.
pub fn validate(
    p: &ExecutionPlan,
    records: &Store,
    info: &RepositoryInfo,
    policy: &ProjectPolicy,
    facts: &PlanFacts,
) -> (r: Result<(), Error>)
    requires
        facts.tasks@.len() == p.packet.tasks@.len(),
        facts.contract_bytes@.len() == p.metadata.contracts@.len(),
    ensures
        crate::error::settles(r, plan_refusal(*p, *records, *info, *policy, *facts)),
{
    if !(facts.plan_bytes <= 262144 && p.packet.tasks.len() <= 32) {
        return invalid("execution plan exceeds 256 KiB / 32 tasks");
    }
    match validation::unless(&facts.packet_refusal) {
        Ok(()) => {},
        Err(e) => return Err(e),
    }
    match validation::provenance(&p.metadata.provenance, &facts.provider_refusal) {
        Ok(()) => {},
        Err(e) => return Err(e),
    }
    match records.find_request(&info.workspace_id, p.metadata.request_id.as_str()) {
        None => invalid(REQUEST_NOT_FOUND),
        Some(k) => body_acceptable(p, records, k, info, policy, facts),
    }
}

// ---------------------------------------------------------------------------
// Laws
// ---------------------------------------------------------------------------

proof fn lemma_contracts(
    p: ExecutionPlan,
    prepared: PlannerPacket,
    policy: ProjectPolicy,
    facts: PlanFacts,
    from: int,
    k: int,
)
    requires
        0 <= from <= k < p.metadata.contracts@.len(),
        contracts_refusal(p, prepared, policy, facts, from) is None,
    ensures
        !repeats(p.metadata.contracts@, k),
        protocol::task_at(p.packet.tasks@, p.metadata.contracts@[k].task_id@, 0) matches Some(t)
            && bounds_refusal(
            p.metadata.contracts@[k],
            facts.contract_bytes@[k],
            p.packet.tasks@[t],
            facts.tasks@[t],
        ) is None && task_refusal(
            p,
            p.metadata.contracts@[k],
            p.packet.tasks@[t],
            prepared,
            policy,
            facts,
        ) is None,
    decreases k - from,
{
    if from < k {
        lemma_contracts(p, prepared, policy, facts, from + 1, k);
    }
}

proof fn lemma_scopes(
    scopes: Seq<ScopePath>,
    write: bool,
    asked: Seq<ScopePath>,
    exclusions: Seq<ScopePath>,
    policy: ProjectPolicy,
    facts: PlanFacts,
    from: int,
    i: int,
)
    requires
        0 <= from <= i < scopes.len(),
        task_scopes_refusal(scopes, write, asked, exclusions, policy, facts, from) is None,
    ensures
        task_scope_refusal(scopes[i], write, asked, exclusions, policy, facts) is None,
    decreases i - from,
{
    if from < i {
        lemma_scopes(scopes, write, asked, exclusions, policy, facts, from + 1, i);
    }
}

/// In an accepted plan there is a contract for every task, and every contract
/// independently binds the exact packet of one task.
pub proof fn law_every_contract_binds_a_task(
    p: ExecutionPlan,
    records: Store,
    info: RepositoryInfo,
    policy: ProjectPolicy,
    facts: PlanFacts,
    k: int,
)
    requires
        plan_refusal(p, records, info, policy, facts) is None,
        0 <= k < p.metadata.contracts@.len(),
    ensures
        p.metadata.contracts@.len() == p.packet.tasks@.len(),
        p.metadata.contracts@[k].independent_verifier,
        protocol::task_at(p.packet.tasks@, p.metadata.contracts@[k].task_id@, 0) matches Some(t)
            && p.metadata.contracts@[k].task_packet_hash@ == facts.tasks@[t].hash@,
{
    let r = store::request_at(records.requests@, info.workspace_id@, p.metadata.request_id@, 0)->0;
    lemma_contracts(p, records.requests@[r].packet, policy, facts, 0, k);
}

/// In an accepted plan no two contracts bind the same task.
pub proof fn law_contracts_bind_distinct_tasks(
    p: ExecutionPlan,
    records: Store,
    info: RepositoryInfo,
    policy: ProjectPolicy,
    facts: PlanFacts,
    j: int,
    k: int,
)
    requires
        plan_refusal(p, records, info, policy, facts) is None,
        0 <= j < k < p.metadata.contracts@.len(),
    ensures
        p.metadata.contracts@[j].task_id@ != p.metadata.contracts@[k].task_id@,
{
    let r = store::request_at(records.requests@, info.workspace_id@, p.metadata.request_id@, 0)->0;
    lemma_contracts(p, records.requests@[r].packet, policy, facts, 0, k);
}

/// In an accepted plan no write scope of a task reaches a path that policy
/// forbids to read or write, nor one that its contract excludes, and it stays
/// inside what was requested.
pub proof fn law_write_scopes_respect_policy_and_exclusions(
    p: ExecutionPlan,
    records: Store,
    info: RepositoryInfo,
    policy: ProjectPolicy,
    facts: PlanFacts,
    k: int,
    t: int,
    i: int,
    rule: int,
)
    requires
        plan_refusal(p, records, info, policy, facts) is None,
        0 <= k < p.metadata.contracts@.len(),
        protocol::task_at(p.packet.tasks@, p.metadata.contracts@[k].task_id@, 0) == Some(t),
        0 <= i < p.packet.tasks@[t].write_scope@.len(),
        0 <= rule < policy.protected@.len(),
        policy.protected@[rule].deny_read || policy.protected@[rule].deny_write,
    ensures
        !scope::allows(p.packet.tasks@[t].write_scope@[i], policy.protected@[rule].path@),
        !scope::any_meets(p.metadata.contracts@[k].exclusions@, p.packet.tasks@[t].write_scope@[i]),
        store::request_at(records.requests@, info.workspace_id@, p.metadata.request_id@, 0)
            matches Some(r) && requested(
            records.requests@[r].packet.request.intent.scope@,
            p.packet.tasks@[t].write_scope@[i],
        ),
{
    let r = store::request_at(records.requests@, info.workspace_id@, p.metadata.request_id@, 0)->0;
    let prepared = records.requests@[r].packet;
    lemma_contracts(p, prepared, policy, facts, 0, k);
    let asked = prepared.request.intent.scope@;
    let exclusions = p.metadata.contracts@[k].exclusions@;
    let s = p.packet.tasks@[t].write_scope@[i];
    lemma_scopes(p.packet.tasks@[t].write_scope@, true, asked, exclusions, policy, facts, 0, i);
    let symlinked = text::texts(facts.symlinked@).contains(s.at());
    assert(scope::scope_refusal(None, policy.protected@, s, true, symlinked) is None);
    assert(!symlinked);
    scope::law_a_safe_scope_permits_no_denied_path(policy.protected@, s, true, rule);
}

/// A plan that replaces another one never marks a task of it as retained unless
/// that task is recorded as VERIFIED, and never both retains and replaces it.
pub proof fn law_replanning_retains_only_verified_tasks(
    replan: ReplanReference,
    plan_id: Seq<char>,
    records: Store,
    workspace: Seq<char>,
    i: int,
)
    requires
        replan_refusal(replan, plan_id, records, workspace) is None,
        0 <= i < replan.previously_verified_tasks@.len(),
    ensures
        store::plan_at(records.plans@, workspace, replan.previous_plan_id@, 0) matches Some(k)
            && store::state_of(
            records.plans@[k].tasks@,
            replan.previously_verified_tasks@[i]@,
            0,
        ) == Some(TaskState::Verified),
        !text::texts(replan.replaced_tasks@).contains(replan.previously_verified_tasks@[i]@),
{
    assert(text::texts(replan.previously_verified_tasks@)[i]
        == replan.previously_verified_tasks@[i]@);
}

} // verus!
