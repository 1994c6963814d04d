use agentctl::error::Error;
use agentctl::graph::{ContextPacket, Edge, Entity, EntityKind, GraphGeneration, Provenance, SourceRange};
use agentctl::planning::cli::{
    no_tasks, plan_report, select_tasks, tasks_report, PlanCommand, PlanNames,
};
use agentctl::planning::completion::{
    aborted, completion_sequence, validate_completed, AcceptedVerification, Completed,
    CompletedPlan, CompletionAudit, EvidenceRow, ProofFacts, RecordedChange, Transition,
};
use agentctl::planning::context::{
    assemble, check_graph, choose_files, critical_refs, fit, shed, supports, Gathered,
};
use agentctl::planning::lifecycle::TaskGuard;
use agentctl::planning::model::{
    ExecutionPlan, GraphLimits, IntegrationVerificationContract, Invariant, MemoryContext,
    MemoryItem, MemoryLimits, PlanMetadata, PlanState, PlannerPacket, PlanningArtifactKind,
    PlanningContext, PlanningLimits, PlanningProvenance, PlanningRequest, PlanningRequestId,
    PlanningSource, ProjectPolicy, ReplanReference, RequestDraft, SourceGuarantee, SourceStateRef,
    VerificationContract, VerificationProfile, VerifierInput,
};
use agentctl::planning::plan::{PlanFacts, TaskMeasure};
use agentctl::planning::scope::{ProtectedPath, ScopePath};
use agentctl::planning::validation::{
    check_intent, checks, source_matches, validate_text, validate_texts, IntentFacts, Objection,
    SourceFacts,
};
use agentctl::protocol::{
    AgentJob, AgentRole, JobState, PlanPacket, ProtocolVersion, TaskPacket, TaskState,
    VerificationDecision, VerificationPacket, VerificationRequirements, VerificationTarget,
};
use agentctl::repository::{RepositoryId, RepositoryInfo, RepositorySourceState, WorkspaceId};
use agentctl::report::Line;
use agentctl::runtime::acceptance::{
    check_integrable, integration_envelope, integration_invariants, integration_target,
};
use agentctl::runtime::branch::{check_member, prove_batch};
use agentctl::runtime::capability::{CapabilityStatus, ControlPlaneCapability};
use agentctl::runtime::concurrency::{
    reaches, Compatibility, CompatibilityReason, ImpactItem, ImpactReport, SemanticFacts,
    TaskImpact,
};
use agentctl::runtime::history::{
    CapturedChanges, CapturedSource, Document, Documents, History, JobInput, TaskTransition,
};
use agentctl::runtime::record::{
    AcceptedTask, RunRecord, RunState, RuntimeJob, RuntimeJobState,
};
use agentctl::runtime::run::{begin, check_adoption};
use agentctl::runtime::schedule::{next_step, Ground, Step, Turn};
use agentctl::source::ArtifactRef;
use agentctl::store::{JournalEntry, Store, TaskStatus};

fn message<T: std::fmt::Debug>(r: Result<T, Error>) -> String {
    match r.unwrap_err() {
        Error::Invalid(m) => m,
    }
}

fn strings(list: &[&str]) -> Vec<String> {
    list.iter().map(|s| s.to_string()).collect()
}

fn dir(path: &str) -> ScopePath {
    ScopePath::Directory { path: path.into() }
}

fn workspace() -> WorkspaceId {
    WorkspaceId::for_git_directory("/w/.git")
}

fn observation() -> RepositorySourceState {
    RepositorySourceState {
        repository_id: RepositoryId::for_common_directory("/w/.git"),
        workspace_id: workspace(),
        head_commit: Some("head".into()),
        dirty: false,
        worktree_fingerprint: None,
        observed_at_ms: 1,
    }
}

fn info() -> RepositoryInfo {
    RepositoryInfo {
        repository_id: RepositoryId::for_common_directory("/w/.git"),
        workspace_id: workspace(),
        root: "/w".into(),
        git_directory: "/w/.git".into(),
        common_directory: "/w/.git".into(),
        git_directory_identity: None,
        common_directory_identity: None,
        remotes: vec![],
        source: observation(),
    }
}

fn provenance(actor: &str) -> PlanningProvenance {
    PlanningProvenance {
        actor: actor.into(),
        source_refs: strings(&["user"]),
        provider: None,
    }
}

fn source() -> PlanningSource {
    PlanningSource {
        observation: observation(),
        policy_hash: "policy".into(),
        graph_version: "1".into(),
        support: vec![],
        guarantee: SourceGuarantee::SequentialObservationNotExactDiff,
    }
}

fn request_id() -> PlanningRequestId {
    PlanningRequestId::new(format!("request:{}", "a".repeat(32))).unwrap()
}

fn unit() -> VerificationRequirements {
    VerificationRequirements { requirement_refs: strings(&["unit"]), evidence_required: true }
}

fn policy() -> ProjectPolicy {
    ProjectPolicy {
        protected: vec![ProtectedPath {
            path: "secret".into(),
            deny_read: true,
            deny_write: true,
        }],
        verification: vec![VerificationProfile {
            name: "unit".into(),
            description: "d".into(),
            command_refs: strings(&["test"]),
        }],
        commands: vec![],
        invariants: vec![Invariant { key: "law".into(), content: "always".into() }],
        max_agents: None,
        deny_network: false,
    }
}

fn limits() -> PlanningLimits {
    PlanningLimits {
        graph: GraphLimits { primary: 8, depth: 1, neighbors: 8, tests: 8 },
        memory: MemoryLimits { canonical: 8, facts: 8, notes: 0, bytes: 4096 },
        files: 4,
        excerpt_bytes: 4096,
        excerpt_lines: 80,
        bytes: 4096,
    }
}

fn draft() -> RequestDraft {
    RequestDraft {
        objective: "improve".into(),
        query: None,
        scope: vec![],
        constraints: vec![],
        definition_of_done: strings(&["green"]),
        verification: Some(unit()),
        invariant_refs: strings(&["law"]),
        provenance: provenance("user"),
    }
}

fn graph() -> ContextPacket {
    ContextPacket {
        primary: vec![],
        neighbors: vec![],
        tests: vec![],
        relations: vec![],
        unresolved: vec![],
        truncated: false,
        generation: None,
    }
}

fn packet() -> PlannerPacket {
    PlannerPacket {
        artifact: PlanningArtifactKind::FrozenPlanningInput,
        request: PlanningRequest {
            version: ProtocolVersion::V1,
            request_id: request_id(),
            intent: draft(),
            source: source(),
            created_at_ms: 5,
        },
        context: PlanningContext {
            graph: graph(),
            memory: MemoryContext { items: vec![], truncated: false },
            policy: policy(),
            invariants: vec![Invariant { key: "law".into(), content: "always".into() }],
            excerpts: vec![],
            impact: None,
            limits: limits(),
            truncated: false,
        },
        serialized_bytes: 100,
    }
}

fn source_facts() -> SourceFacts {
    SourceFacts { index_version: "1".into(), policy_hash: "policy".into(), indexed: vec![] }
}

fn intent_facts() -> IntentFacts {
    IntentFacts {
        bytes: 100,
        provider_refusal: None,
        paths: vec![],
        verification_refusal: None,
    }
}

fn empty_store() -> Store {
    Store {
        plans: vec![],
        requests: vec![],
        jobs: vec![],
        experiments: vec![],
        events: vec![],
        decisions: vec![],
        cursors: vec![],
        journal: vec![],
    }
}

fn prepared_store() -> Store {
    let mut store = empty_store();
    store
        .prepare_plan(
            &draft(),
            &limits(),
            packet(),
            &info(),
            &policy(),
            &source_facts(),
            &vec![],
            &vec![],
            &vec![],
        )
        .unwrap();
    store
}

fn task(id: &str, dependencies: &[&str], write: &str) -> TaskPacket {
    TaskPacket {
        task_id: id.into(),
        objective: format!("do {id}"),
        dependencies: strings(dependencies),
        read_scope: vec![],
        write_scope: vec![dir(write)],
        graph_entities: vec![],
        invariant_refs: strings(&["law"]),
        verification: unit(),
    }
}

fn contract(task: &str) -> VerificationContract {
    VerificationContract {
        task_id: task.into(),
        task_packet_hash: format!("hash {task}"),
        independent_verifier: true,
        input: VerifierInput::PacketDiffAndEvidence,
        memory_refs: vec![],
        exclusions: vec![],
        non_goals: vec![],
    }
}

fn plan(id: &str) -> ExecutionPlan {
    ExecutionPlan {
        metadata: PlanMetadata {
            version: ProtocolVersion::V1,
            request_id: request_id(),
            source: source(),
            created_at_ms: 6,
            provenance: provenance("planner"),
            contracts: vec![contract("task:a"), contract("task:b")],
            integration: IntegrationVerificationContract {
                plan_id: id.into(),
                plan_packet_hash: "packet".into(),
                independent_verifier: true,
                require_all_task_verifications: true,
                require_final_diff_and_evidence: true,
                expectations: strings(&["green"]),
            },
            replan: None,
        },
        packet: PlanPacket {
            plan_id: id.into(),
            objective: "improve".into(),
            tasks: vec![task("task:a", &[], "src"), task("task:b", &["task:a"], "doc")],
            integration_verification: unit(),
        },
    }
}

fn plan_facts() -> PlanFacts {
    let measure = |id: &str| TaskMeasure { bytes: 10, hash: format!("hash {id}") };
    PlanFacts {
        plan_bytes: 100,
        packet_hash: "packet".into(),
        tasks: vec![measure("task:a"), measure("task:b")],
        contract_bytes: vec![10, 10],
        packet_refusal: None,
        provider_refusal: None,
        integration_shape: None,
        task_shapes: vec![],
        intent: intent_facts(),
        source: source_facts(),
        index_fresh: true,
        now_ms: 10,
        canonical: vec![],
        identifiers: vec![],
        paths: vec![],
        symlinked: vec![],
        entities: vec![],
        memory: vec![],
    }
}

fn import(store: &mut Store, p: ExecutionPlan) -> Result<(), Error> {
    store.import_execution_plan(&info(), p, &policy(), &plan_facts(), &None, 11).map(|_| ())
}

fn active_store() -> Store {
    let mut store = prepared_store();
    import(&mut store, plan("plan:a")).unwrap();
    store
        .activate_execution_plan(&info(), "plan:a", &policy(), &plan_facts(), 12)
        .unwrap();
    store
}

fn state(store: &Store, id: &str) -> PlanState {
    store.execution_plan(&workspace(), id).unwrap().state
}

fn guards(n: usize) -> Vec<TaskGuard> {
    (0..n)
        .map(|_| TaskGuard {
            bytes: 10,
            may_be_ready: true,
            runnable: true,
            runnable_refusal: None,
        })
        .collect()
}

// --- requests --------------------------------------------------------------

#[test]
fn a_prepared_request_is_found() {
    let store = prepared_store();
    assert_eq!(store.requests.len(), 1);
    let found = store.planning_context(&workspace(), &request_id()).unwrap();
    assert_eq!(found, &packet());
    let elsewhere = WorkspaceId::for_git_directory("/other/.git");
    assert_eq!(
        message(store.planning_context(&elsewhere, &request_id()).map(|_| ())),
        "planning request not found in this workspace"
    );
    assert!(matches!(
        store.journal.last(),
        Some(JournalEntry::PlanningRequestCreated { .. })
    ));
}

#[test]
fn a_request_that_drifted_is_not_stored() {
    let mut store = empty_store();
    let mut changed = policy();
    changed.invariants[0].content = "sometimes".into();
    let refused = store.prepare_plan(
        &draft(),
        &limits(),
        packet(),
        &info(),
        &changed,
        &source_facts(),
        &vec![],
        &vec![],
        &vec![],
    );
    assert_eq!(message(refused), "invariants changed during preparation; retry");
    assert_eq!(store, empty_store());
    let mut grown = policy();
    grown.invariants.push(Invariant { key: "new".into(), content: "too".into() });
    let refused = store.prepare_plan(
        &draft(),
        &limits(),
        packet(),
        &info(),
        &grown,
        &source_facts(),
        &vec![],
        &vec![],
        &vec![],
    );
    assert_eq!(message(refused), "invariants changed during preparation; retry");
    assert_eq!(store, empty_store());
    let mut facts = source_facts();
    facts.policy_hash = "other".into();
    assert_eq!(
        message(source_matches(&source(), &info(), &facts)),
        "project policy changed; prepare a new request"
    );
    let mut moved = info();
    moved.source.head_commit = Some("newer".into());
    assert_eq!(
        message(source_matches(&source(), &moved, &source_facts())),
        "HEAD/dirty observation drifted; prepare a new request"
    );
}

#[test]
fn only_what_answers_the_intent_is_prepared() {
    let refused = |intent: RequestDraft, within: PlanningLimits, packet: PlannerPacket| {
        let mut store = prepared_store();
        let r = store
            .prepare_plan(
                &intent,
                &within,
                packet,
                &info(),
                &policy(),
                &source_facts(),
                &vec![],
                &vec![],
                &vec![],
            )
            .map(|_| ());
        assert_eq!(store, prepared_store());
        message(r)
    };
    let mut wide = limits();
    wide.excerpt_lines = 81;
    let outside = refused(draft(), wide, packet());
    assert_eq!(outside, "planning limits: 4–128 KiB total, 1–16 files, 0–4096 excerpt bytes, 0–80 lines");
    let mut large = packet();
    large.serialized_bytes = 4097;
    assert!(refused(draft(), limits(), large).starts_with("required planning intent/policy exceeds"));
    let unanswered = "prepared packet does not answer its intent; retry";
    let mut other = draft();
    other.objective = "something else".into();
    assert_eq!(refused(other, limits(), packet()), unanswered);
    let mut unreferenced = packet();
    unreferenced.request.intent.invariant_refs = vec![];
    assert_eq!(refused(draft(), limits(), unreferenced), unanswered);
    assert_eq!(refused(draft(), limits(), packet()), "planning request already exists");
}

#[test]
fn a_packet_within_its_budget_is_handed_back() {
    let mut store = empty_store();
    let mut full = packet();
    full.serialized_bytes = 4096;
    let kept = store
        .prepare_plan(
            &draft(),
            &limits(),
            full,
            &info(),
            &policy(),
            &source_facts(),
            &vec![],
            &vec![],
            &vec![],
        )
        .unwrap();
    assert_eq!(kept.serialized_bytes, 4096);
    let keys: Vec<&String> = kept.context.invariants.iter().map(|i| &i.key).collect();
    assert_eq!(keys, kept.request.intent.invariant_refs.iter().collect::<Vec<_>>());
}

#[test]
fn intents_are_bounded() {
    assert!(check_intent(&draft(), &intent_facts()).is_ok());
    let mut long = draft();
    long.objective = "x".repeat(4097);
    assert_eq!(
        message(check_intent(&long, &intent_facts())),
        "objective must be nonblank, NUL-free and at most 4096 bytes"
    );
    let mut unsourced = draft();
    unsourced.provenance.source_refs = vec![];
    assert_eq!(
        message(check_intent(&unsourced, &intent_facts())),
        "planning provenance requires a source reference"
    );
    let mut facts = intent_facts();
    facts.bytes = 16_385;
    assert_eq!(message(check_intent(&draft(), &facts)), "planning intent exceeds bounds");
    assert!(validate_text("a\0", 9, "x").is_err());
    assert!(validate_texts(&strings(&["a", ""]), "x").is_err());
    assert!(checks(&policy(), &unit()).is_ok());
    let other = VerificationRequirements {
        requirement_refs: strings(&["x"]),
        evidence_required: true,
    };
    assert_eq!(
        message(checks(&policy(), &other)),
        "verification reference x is not defined in project policy"
    );
    assert_eq!(critical_refs(&strings(&["b", "a"]), &policy().invariants), ["a", "b", "law"]);
}

// --- plans -----------------------------------------------------------------

#[test]
fn plans_run_their_lifecycle() {
    let mut store = prepared_store();
    import(&mut store, plan("plan:a")).unwrap();
    assert_eq!(state(&store, "plan:a"), PlanState::Validated);
    let taken = Some("plan exists".to_string());
    assert_eq!(
        message(store.import_execution_plan(
            &info(),
            plan("plan:a"),
            &policy(),
            &plan_facts(),
            &taken,
            11
        )),
        "plan exists"
    );
    assert_eq!(
        message(import(&mut store, plan("plan:a"))),
        "execution plan already exists"
    );
    assert_eq!(store.plans.len(), 1);
    let validated = store
        .validate_execution_plan(&info(), "plan:a", &policy(), &plan_facts())
        .unwrap();
    assert_eq!(validated.plan, plan("plan:a"));
    assert_eq!(validated.state, PlanState::Validated);
    let mut fresh = prepared_store();
    let imported = fresh
        .import_execution_plan(&info(), plan("plan:a"), &policy(), &plan_facts(), &None, 11)
        .unwrap();
    assert_eq!(imported.plan, plan("plan:a"));
    assert_eq!(imported.updated_at_ms, 11);
    assert_eq!(fresh.execution_plan(&workspace(), "plan:a").unwrap().plan, plan("plan:a"));
    store
        .activate_execution_plan(&info(), "plan:a", &policy(), &plan_facts(), 12)
        .unwrap();
    assert_eq!(state(&store, "plan:a"), PlanState::Active);
    assert_eq!(
        message(store.activate_execution_plan(
            &info(),
            "plan:a",
            &policy(),
            &plan_facts(),
            13
        )),
        "activation requires VALIDATED plan"
    );
    assert!(message(store.validate_execution_plan(
        &info(),
        "plan:a",
        &policy(),
        &plan_facts()
    ))
    .starts_with("only pending VALIDATED plans"));
    assert_eq!(
        message(store.cancel_execution_plan(&workspace(), "plan:a", " ", 13)),
        "cancellation reason must be nonblank, NUL-free and at most 1024 bytes"
    );
    store
        .cancel_execution_plan(&workspace(), "plan:a", "enough", 14)
        .unwrap();
    assert_eq!(state(&store, "plan:a"), PlanState::Cancelled);
    assert_eq!(
        message(store.cancel_execution_plan(&workspace(), "plan:a", "again", 15)),
        "plan is terminal; history cannot be rewritten"
    );
    assert_eq!(
        message(store.execution_plan(&workspace(), "plan:x").map(|_| ())),
        "execution plan not found in this workspace"
    );
    assert_eq!(store.execution_plans(&workspace(), true, 10).unwrap().len(), 1);
    assert!(store.execution_plans(&workspace(), false, 10).unwrap().is_empty());
    assert!(store.execution_plans(&workspace(), true, 0).is_err());
    assert!(store.execution_plans(&workspace(), true, 101).is_err());
}

#[test]
fn unfinished_jobs_block_cancellation() {
    let mut store = active_store();
    store.jobs.push(AgentJob {
        job_id: "job:a".into(),
        role: AgentRole::Executor,
        plan_id: "plan:a".into(),
        task_id: Some("task:a".into()),
        state: JobState::Running,
        workspace_id: Some(workspace().into_string()),
    });
    assert_eq!(
        message(store.cancel_execution_plan(&workspace(), "plan:a", "enough", 14)),
        "plan has unfinished jobs; settle them explicitly before cancellation/supersession"
    );
    assert_eq!(state(&store, "plan:a"), PlanState::Active);
}

#[test]
fn plans_are_superseded_by_their_replacement() {
    let mut store = active_store();
    let mut replacement = plan("plan:b");
    replacement.metadata.replan = Some(ReplanReference {
        previous_plan_id: "plan:a".into(),
        reason: "better".into(),
        previously_verified_tasks: vec![],
        replaced_tasks: strings(&["task:a", "task:b"]),
    });
    let mut kept = plan("plan:b");
    kept.metadata.replan = Some(ReplanReference {
        previous_plan_id: "plan:a".into(),
        reason: "better".into(),
        previously_verified_tasks: strings(&["task:a"]),
        replaced_tasks: vec![],
    });
    assert_eq!(
        message(import(&mut store, kept)),
        "replan preserved-history reference is not VERIFIED"
    );
    import(&mut store, replacement).unwrap();
    let supersede = |store: &mut Store, old: &str, new: &str| {
        store.supersede_execution_plan(&info(), old, new, &policy(), &plan_facts(), 20)
    };
    assert_eq!(
        message(supersede(&mut store, "plan:a", "plan:a")),
        "plan cannot supersede itself"
    );
    supersede(&mut store, "plan:a", "plan:b").unwrap();
    let old = store.execution_plan(&workspace(), "plan:a").unwrap();
    assert_eq!(old.state, PlanState::Superseded);
    assert_eq!(old.superseded_by.as_deref(), Some("plan:b"));
    assert_eq!(state(&store, "plan:b"), PlanState::Validated);
    assert!(supersede(&mut store, "plan:a", "plan:b").is_err());
}

#[test]
fn plans_are_checked_against_their_request() {
    let refused = |f: &dyn Fn(&mut ExecutionPlan, &mut PlanFacts)| {
        let mut store = prepared_store();
        let mut p = plan("plan:a");
        let mut facts = plan_facts();
        f(&mut p, &mut facts);
        let r = store.import_execution_plan(&info(), p, &policy(), &facts, &None, 11).map(|_| ());
        assert!(store.plans.is_empty());
        message(r)
    };
    assert_eq!(
        refused(&|p, _| p.packet.objective = "other".into()),
        "plan objective differs from durable user intent"
    );
    assert_eq!(
        refused(&|p, _| p.metadata.created_at_ms = 4),
        "plan creation timestamp is inconsistent with request/current time"
    );
    assert_eq!(
        refused(&|_, f| f.index_fresh = false),
        "plan validation requires a complete fresh code index"
    );
    assert_eq!(
        refused(&|p, _| p.metadata.contracts[0].task_packet_hash = "x".into()),
        "verification contract must independently bind the exact TaskPacket"
    );
    assert_eq!(
        refused(&|p, _| p.metadata.contracts[1].task_id = "task:a".into()),
        "duplicate verification contract"
    );
    assert_eq!(
        refused(&|p, _| p.metadata.contracts[0].task_id = "task:x".into()),
        "contract names an unknown task"
    );
    assert_eq!(
        refused(&|p, _| p.metadata.contracts[0].exclusions = vec![dir("src/a")]),
        "task scope contradicts an exclusion"
    );
    assert_eq!(
        refused(&|p, _| p.packet.tasks[0].invariant_refs = vec![]),
        "task omits a critical request/project invariant"
    );
    assert_eq!(
        refused(&|p, _| p.packet.tasks[0].graph_entities = strings(&["entity:x"])),
        "graph reference entity:x is missing in this workspace"
    );
    assert_eq!(
        refused(&|p, _| p.metadata.integration.expectations = strings(&["other"])),
        "integration must carry requested done criteria"
    );
    assert_eq!(
        refused(&|p, _| p.metadata.integration.independent_verifier = false),
        "invalid/missing independent final integration contract"
    );
    assert_eq!(
        refused(&|_, f| f.plan_bytes = 262_145),
        "execution plan exceeds 256 KiB / 32 tasks"
    );
    assert!(refused(&|p, _| p.packet.tasks[0].write_scope = vec![dir("secret/x")])
        .contains("secret"));
    assert_eq!(refused(&|_, f| f.packet_refusal = Some("cycle".into())), "cycle");
}

#[test]
fn ready_tasks_have_verified_dependencies() {
    let store = active_store();
    let tasks = store
        .execution_tasks(&workspace(), "plan:a", &guards(2), &vec![10, 10])
        .unwrap();
    assert!(tasks[0].structurally_ready);
    assert_eq!(tasks[0].state, TaskState::Planned);
    assert!(!tasks[1].structurally_ready);
    assert_eq!(tasks[1].reasons.len(), 1);
    assert_eq!(tasks[1].reasons[0], "task:a is Some(Planned), not VERIFIED");
    let mut later = active_store();
    later.plans[0].tasks[0].state = TaskState::Verified;
    let tasks = later
        .execution_tasks(&workspace(), "plan:a", &guards(2), &vec![10, 10])
        .unwrap();
    assert!(!tasks[0].structurally_ready);
    assert!(tasks[1].structurally_ready);
    let mut over = active_store();
    over.cancel_execution_plan(&workspace(), "plan:a", "enough", 14).unwrap();
    let tasks = over
        .execution_tasks(&workspace(), "plan:a", &guards(2), &vec![10, 10])
        .unwrap();
    assert!(!tasks[0].structurally_ready);
    assert_eq!(tasks[0].reasons, ["plan is Cancelled"]);
}

// --- completion ------------------------------------------------------------

fn agent(id: &str, role: AgentRole, task: Option<&str>) -> AgentJob {
    AgentJob {
        job_id: id.into(),
        role,
        plan_id: "plan:a".into(),
        task_id: task.map(str::to_owned),
        state: JobState::Succeeded,
        workspace_id: Some(workspace().into_string()),
    }
}

fn task_proof(task: &str, executor: &str) -> AcceptedVerification {
    AcceptedVerification {
        verification: Some(VerificationPacket {
            verifier_job_id: format!("verifier of {task}"),
            target: VerificationTarget::Packet {
                task_id: task.into(),
                executor_job_id: executor.into(),
            },
            decision: VerificationDecision::Pass,
            evidence: strings(&["evidence:1"]),
            rest: String::new(),
        }),
        shape: None,
        verifier: None,
    }
}

fn final_source() -> SourceStateRef {
    SourceStateRef { head_commit: Some("head".into()), worktree_diff_hash: Some("diff".into()) }
}

fn proof_facts() -> ProofFacts {
    ProofFacts {
        policy_hash: "policy".into(),
        canonical: vec![],
        identifiers: vec![],
        jobs: vec![
            agent("executor:a", AgentRole::Executor, Some("task:a")),
            agent("executor:b", AgentRole::Executor, Some("task:b")),
            agent("final", AgentRole::Verifier, None),
        ],
        accepted: vec![task_proof("task:a", "executor:a"), task_proof("task:b", "executor:b")],
        evidence_refusal: None,
        evidence: vec![EvidenceRow {
            evidence_id: "evidence:final".into(),
            source: Some(final_source()),
            workspace: Some(workspace().into_string()),
        }],
    }
}

fn final_proof(executors: &[&str]) -> VerificationPacket {
    VerificationPacket {
        verifier_job_id: "final".into(),
        target: VerificationTarget::Integration {
            plan_id: "plan:a".into(),
            executor_job_ids: strings(executors),
        },
        decision: VerificationDecision::Pass,
        evidence: strings(&["evidence:final"]),
        rest: String::new(),
    }
}

fn complete(store: &mut Store, given: VerificationPacket, facts: &ProofFacts) -> Result<(), Error> {
    store.complete_execution_plan(
        &workspace(),
        "plan:a",
        given,
        final_source(),
        &None,
        &None,
        &policy(),
        facts,
        30,
    )
}

#[test]
fn completion_needs_a_pass_for_every_task() {
    let all = ["executor:a", "executor:b"];
    let mut store = active_store();
    let refused = |f: &dyn Fn(&mut ProofFacts)| {
        let mut facts = proof_facts();
        f(&mut facts);
        let mut store = active_store();
        let m = message(complete(&mut store, final_proof(&all), &facts));
        assert_eq!(state(&store, "plan:a"), PlanState::Active);
        m
    };
    assert_eq!(
        refused(&|f| {
            let v = f.accepted[1].verification.as_mut().unwrap();
            v.decision = VerificationDecision::Reject;
        }),
        "accepted packet verification must be PASS for the task"
    );
    assert_eq!(
        refused(&|f| f.policy_hash = "other".into()),
        "verification policy drifted; explicit replan required"
    );
    assert_eq!(
        refused(&|f| f.evidence[0].source = None),
        "integration evidence must bind the submitted final source and workspace"
    );
    assert_eq!(
        refused(&|f| {
            f.jobs.pop();
        }),
        "integration verifier is not registered"
    );
    assert_eq!(
        message(complete(&mut store, final_proof(&["executor:a"]), &proof_facts())),
        "integration executor set must match every accepted packet verification"
    );
    complete(&mut store, final_proof(&all), &proof_facts()).unwrap();
    let done = store.execution_plan(&workspace(), "plan:a").unwrap();
    assert_eq!(done.state, PlanState::Complete);
    assert_eq!(done.final_source, Some(final_source()));
    assert_eq!(done.integration_proof, Some(final_proof(&all)));
    assert_eq!(
        store.journal.last(),
        Some(&JournalEntry::ExecutionPlanCompleted {
            plan_id: "plan:a".into(),
            verification: final_proof(&all),
            source: final_source(),
        })
    );
    assert!(complete(&mut store, final_proof(&all), &proof_facts()).is_err());
}

// --- the planner's context -------------------------------------------------

fn entity(id: &str, path: &str) -> Entity {
    Entity {
        id: id.into(),
        kind: EntityKind::Item,
        name: id.into(),
        qualified_name: id.into(),
        signature: String::new(),
        visibility: None,
        range: SourceRange { start_byte: 0, end_byte: 1, start_line: 1, end_line: 1 },
        provenance: at(path),
    }
}

fn at(path: &str) -> Provenance {
    Provenance {
        repository_id: "r".into(),
        workspace_id: "w".into(),
        path: path.into(),
        content_hash: "h".into(),
        language_backend: "rust".into(),
        backend: "rust".into(),
    }
}

#[test]
fn chosen_files_are_in_scope() {
    let mut g = graph();
    g.primary = vec![entity("a", "src/a"), entity("b", "doc/b")];
    g.tests = vec![entity("t", "src/t")];
    g.neighbors = vec![entity("n", "src/n")];
    assert_eq!(choose_files(&g, &vec![], 2).len(), 2);
    for path in choose_files(&g, &vec![dir("src")], 4) {
        assert!(path.starts_with("src/"), "{path}");
    }
}

#[test]
fn shedding_ends_and_nothing_dangles() {
    let mut p = packet();
    p.context.graph.primary = vec![entity("a", "src/a")];
    p.context.graph.neighbors = vec![entity("n", "src/n")];
    p.context.graph.relations = vec![Edge {
        id: "edge".into(),
        source: "a".into(),
        target: Some("n".into()),
        kind: "CALLS".into(),
        resolution: None,
        provenance: at("src/a"),
    }];
    p.context.memory.items =
        vec![MemoryItem { id: "memory:1".into(), content: "remember".into() }];
    assert_eq!(supports(&p.context).len(), 2);
    assert!(fit(&mut p, 100).unwrap());
    assert!(!p.context.truncated);
    let mut steps = 0;
    while let Ok(done) = fit(&mut p, 99) {
        assert!(!done);
        steps += 1;
        let known: Vec<&str> = p
            .context
            .graph
            .primary
            .iter()
            .chain(&p.context.graph.neighbors)
            .map(|e| e.id.as_str())
            .collect();
        for edge in &p.context.graph.relations {
            assert!(known.contains(&edge.source.as_str()));
            assert!(known.contains(&edge.target.as_deref().unwrap()));
        }
        assert!(steps < 10);
    }
    assert!(p.context.truncated);
    assert!(p.context.graph.primary.is_empty());
    assert!(p.context.memory.items.is_empty());
    assert!(!shed(&mut p.context));
    assert_eq!(p.context.policy, policy());
    assert!(message(fit(&mut p, 99)).starts_with("required planning intent/policy exceeds"));
}

// --- concurrency -----------------------------------------------------------

fn impact(task: &str, items: Vec<ImpactItem>) -> TaskImpact {
    TaskImpact {
        task_id: task.into(),
        report: ImpactReport {
            boundary: None,
            items_omitted: 0,
            boundaries_omitted: 0,
            items,
        },
    }
}

fn independent() -> ExecutionPlan {
    let mut p = plan("plan:a");
    p.packet.tasks[1].dependencies = vec![];
    p.packet.tasks[0].graph_entities = strings(&["entity:a"]);
    p.packet.tasks[1].graph_entities = strings(&["entity:b"]);
    p
}

fn facts(impacts: Vec<TaskImpact>) -> SemanticFacts {
    SemanticFacts {
        generation: Some(GraphGeneration { sequence: 1, fingerprint: "g".into() }),
        entities: strings(&["entity:a", "entity:b"]),
        impacts,
        unreported: "task impact is unavailable".into(),
    }
}

fn no_impact() -> SemanticFacts {
    facts(vec![impact("task:a", vec![]), impact("task:b", vec![])])
}

fn decided(p: ExecutionPlan, f: SemanticFacts) -> (Compatibility, Vec<CompatibilityReason>) {
    let mut store = active_store();
    store.plans[0].view.plan = p;
    let list = store
        .runtime_compatibility(&info(), "plan:a", &guards(2), &vec![10, 10], &f)
        .unwrap();
    let mut list = list;
    assert_eq!(list.len(), 1);
    let d = list.remove(0);
    assert_eq!((d.left.as_str(), d.right.as_str()), ("task:a", "task:b"));
    (d.decision, d.reasons)
}

#[test]
fn compatible_tasks_are_independent() {
    let (decision, reasons) = decided(independent(), no_impact());
    assert_eq!(decision, Compatibility::Compatible);
    assert_eq!(reasons[0], CompatibilityReason::DisjointDeclaredScopes);
    let mut overlapping = independent();
    overlapping.packet.tasks[1].write_scope = vec![dir("src/deep")];
    let (decision, reasons) = decided(overlapping, no_impact());
    assert_eq!(decision, Compatibility::Conflict);
    assert_eq!(
        reasons[0],
        CompatibilityReason::WriteWriteOverlap {
            left: "src".into(),
            right: "src/deep".into()
        }
    );
    let mut shared = independent();
    shared.packet.tasks[1].graph_entities = strings(&["entity:a"]);
    assert_eq!(decided(shared, no_impact()).0, Compatibility::Conflict);
    let (decision, _) = decided(
        independent(),
        facts(vec![
            impact(
                "task:a",
                vec![ImpactItem {
                    seed: "entity:a".into(),
                    entity: "entity:b".into(),
                    path: "x".into(),
                }],
            ),
            impact("task:b", vec![]),
        ]),
    );
    assert_ne!(decision, Compatibility::Compatible);
    let mut truncated = no_impact();
    truncated.impacts[0].report.items_omitted = 1;
    assert_eq!(decided(independent(), truncated).0, Compatibility::Unknown);
    let mut reading = independent();
    reading.packet.tasks[0].read_scope = vec![dir("doc")];
    assert_eq!(decided(reading, no_impact()).0, Compatibility::Conflict);
    let mut store = active_store();
    store.plans[0].view.plan = independent();
    assert_eq!(
        message(store.runtime_compatibility(
            &info(),
            "plan:a",
            &guards(2),
            &vec![10, 10],
            &facts(vec![])
        )),
        "task impact is unavailable"
    );
    let mut overlapping = independent();
    overlapping.packet.tasks[1].write_scope = vec![dir("src/deep")];
    assert_eq!(decided(overlapping, facts(vec![])).0, Compatibility::Conflict);
    let chain = vec![task("x", &["y"], "a"), task("y", &["z"], "b"), task("z", &[], "c")];
    assert!(reaches(&chain, "z", "x"));
    assert!(!reaches(&chain, "x", "z"));
}

fn run() -> RunRecord {
    let artifact = |h: &str| ArtifactRef { hash: h.into(), bytes: 1 };
    RunRecord {
        engineering_session: None,
        plan_id: "plan:a".into(),
        workspace_id: "w".into(),
        state: RunState::Running,
        baseline: artifact("b"),
        expected: artifact("e"),
        verified: None,
        policy_hash: "policy".into(),
        accepted: vec![],
        pending: None,
        branches: vec![],
        batch_authority: None,
        reconciliation: None,
        reason: None,
        correction_round: 0,
        context: vec![],
        executor_relaunches: vec![],
        refused: None,
    }
}

#[test]
fn the_next_step_follows_from_the_record() {
    let mut store = active_store();
    store.plans[0].view.plan = independent();
    let tasks = store
        .execution_tasks(&workspace(), "plan:a", &guards(2), &vec![10, 10])
        .unwrap();
    let p = independent();
    let f = no_impact();
    let i = info();
    let ground = Ground { plan: &p, info: &i, tasks: &tasks, facts: &f };
    let turn = || Turn {
        cancelled: false,
        policy_hash: "policy".into(),
        unchanged: true,
        limit: 2,
        can_fork: true,
    };
    assert_eq!(next_step(&run(), &turn(), &ground).unwrap(), Step::Batch(vec![0, 1]));
    let mut alone = turn();
    alone.limit = 1;
    assert_eq!(next_step(&run(), &alone, &ground).unwrap(), Step::Execute(0));
    let mut stopped = turn();
    stopped.cancelled = true;
    assert_eq!(message(next_step(&run(), &stopped, &ground)), "runtime cancelled");
    let mut drifted = turn();
    drifted.policy_hash = "other".into();
    assert_eq!(
        message(next_step(&run(), &drifted, &ground)),
        "SOURCE_DRIFT: canonical policy changed"
    );
    let mut moved = turn();
    moved.unchanged = false;
    assert!(message(next_step(&run(), &moved, &ground)).starts_with("SOURCE_DRIFT: current"));
    for t in &mut store.plans[0].tasks {
        t.state = TaskState::Verified;
    }
    let tasks = store
        .execution_tasks(&workspace(), "plan:a", &guards(2), &vec![10, 10])
        .unwrap();
    let ground = Ground { plan: &p, info: &i, tasks: &tasks, facts: &f };
    assert_eq!(next_step(&run(), &turn(), &ground).unwrap(), Step::Integrate);
    for t in &mut store.plans[0].tasks {
        t.state = TaskState::Blocked;
    }
    let tasks = store
        .execution_tasks(&workspace(), "plan:a", &guards(2), &vec![10, 10])
        .unwrap();
    let ground = Ground { plan: &p, info: &i, tasks: &tasks, facts: &f };
    assert_eq!(next_step(&run(), &turn(), &ground).unwrap(), Step::Relaunch(0));
}

#[test]
fn objections_name_their_subject() {
    let objection = Objection { subject: "a".into(), message: "bad a".into() };
    let list = vec![objection];
    assert!(agentctl::planning::validation::unopposed(&list, "b").is_ok());
    assert_eq!(
        message(agentctl::planning::validation::unopposed(&list, "a")),
        "bad a"
    );
}

#[test]
fn packets_are_put_together_unmeasured() {
    assert!(check_graph(true, &None).is_ok());
    assert_eq!(message(check_graph(true, &Some("candidate".into()))), "candidate");
    assert_eq!(
        message(check_graph(false, &Some("candidate".into()))),
        "planning requires a complete fresh graph; inspect repo index --status"
    );
    let mut g = graph();
    g.primary = vec![entity("a", "src/a")];
    g.truncated = true;
    let mut intent = draft();
    intent.invariant_refs = vec![];
    let p = assemble(
        request_id(),
        intent,
        source(),
        5,
        policy(),
        Gathered {
            graph: g,
            memory: MemoryContext { items: vec![], truncated: false },
            invariants: vec![Invariant { key: "law".into(), content: "always".into() }],
            excerpts: vec![],
            impact: None,
        },
        limits(),
    );
    assert_eq!(p.request.intent.invariant_refs, ["law"]);
    assert_eq!(p.request.source.support, [at("src/a")]);
    assert!(p.context.truncated);
    assert_eq!(p.serialized_bytes, 0);
}

// --- what durable records justify ------------------------------------------

fn change(sequence: i64, task: &str, from: TaskState, to: TaskState) -> RecordedChange {
    RecordedChange {
        row: Transition {
            sequence,
            task_id: task.into(),
            workspace: Some(workspace().into_string()),
            job: None,
            from,
            to,
            verification: None,
        },
        guard: None,
        verifier: None,
    }
}

fn verified(sequence: i64, task: &str, executor: &str) -> RecordedChange {
    let mut c = change(sequence, task, TaskState::Verifying, TaskState::Verified);
    let given = task_proof(task, executor).verification.unwrap();
    c.row.job = Some(given.verifier_job_id.clone());
    c.row.verification = Some(given);
    c
}

fn recorded_changes() -> Vec<RecordedChange> {
    vec![
        change(1, "task:a", TaskState::Planned, TaskState::Verifying),
        verified(2, "task:a", "executor:a"),
        change(3, "task:b", TaskState::Planned, TaskState::Verifying),
        verified(4, "task:b", "executor:b"),
    ]
}

fn audit(sequence: i64) -> CompletionAudit {
    CompletionAudit {
        sequence,
        workspace: Some(workspace().into_string()),
        task: None,
        job: None,
        completed: Some(Completed {
            plan_id: "plan:a".into(),
            verification: final_proof(&["executor:a", "executor:b"]),
            source: final_source(),
        }),
    }
}

fn completed_plan() -> CompletedPlan {
    CompletedPlan {
        packet: plan("plan:a").packet,
        plan_id: "plan:a".into(),
        proof: final_proof(&["executor:a", "executor:b"]),
        source: final_source(),
        source_refusal: None,
        completion_refusal: None,
        audits: vec![audit(9)],
    }
}

fn all_verified() -> Vec<TaskStatus> {
    ["task:b", "task:a"]
        .map(|t| TaskStatus { task_id: t.into(), state: TaskState::Verified })
        .into()
}

fn justify(
    p: &CompletedPlan,
    changes: Vec<RecordedChange>,
    states: Vec<TaskStatus>,
) -> Result<(), Error> {
    let f = proof_facts();
    validate_completed(p, &workspace(), &changes, &states, &f.jobs, &None, &f.evidence)
}

#[test]
fn a_justified_completion_was_reached_step_by_step() {
    justify(&completed_plan(), recorded_changes(), all_verified()).unwrap();

    let mut late = recorded_changes();
    late[3].row.sequence = 9;
    assert_eq!(
        message(justify(&completed_plan(), late, all_verified())),
        "task transition occurs after completion audit"
    );
    let mut skipped = recorded_changes();
    skipped.remove(2);
    assert_eq!(
        message(justify(&completed_plan(), skipped, all_verified())),
        "task task:b history has an inconsistent prior state"
    );
    let mut guarded = recorded_changes();
    guarded[2].guard = Some("dependencies are not verified".into());
    assert_eq!(
        message(justify(&completed_plan(), guarded, all_verified())),
        "dependencies are not verified"
    );
    let mut foreign = recorded_changes();
    foreign[1].row.job = Some("someone".into());
    assert_eq!(
        message(justify(&completed_plan(), foreign, all_verified())),
        "packet verification audit has incorrect workspace/job ownership"
    );
    let mut states = all_verified();
    states[0].state = TaskState::Blocked;
    assert_eq!(
        message(justify(&completed_plan(), recorded_changes(), states)),
        "persisted task states are not justified by task verification history"
    );
    let mut same = recorded_changes();
    same[3] = verified(4, "task:b", "executor:a");
    assert_eq!(
        message(justify(&completed_plan(), same, all_verified())),
        "integration executor set does not match accepted packet verifications"
    );
    let f = proof_facts();
    assert_eq!(
        message(validate_completed(
            &completed_plan(),
            &workspace(),
            &recorded_changes(),
            &all_verified(),
            &vec![],
            &None,
            &f.evidence
        )),
        "integration verifier is missing"
    );
    assert_eq!(
        message(validate_completed(
            &completed_plan(),
            &workspace(),
            &recorded_changes(),
            &all_verified(),
            &f.jobs,
            &Some("evidence is gone".into()),
            &f.evidence
        )),
        "evidence is gone"
    );
}

#[test]
fn completions_are_recorded_once_and_exactly() {
    assert_eq!(completion_sequence(&completed_plan(), &workspace()).unwrap(), 9);
    let mut none = completed_plan();
    none.audits.clear();
    assert_eq!(
        message(completion_sequence(&none, &workspace())),
        "matching completion audit is missing"
    );
    let mut twice = completed_plan();
    twice.audits.push(audit(10));
    assert_eq!(
        message(completion_sequence(&twice, &workspace())),
        "multiple completion audits exist"
    );
    let mut owned = completed_plan();
    owned.audits[0].task = Some("task:a".into());
    assert_eq!(
        message(completion_sequence(&owned, &workspace())),
        "completion audit has incorrect workspace/task/job ownership"
    );
    let mut other = completed_plan();
    other.audits[0].completed = None;
    assert_eq!(
        message(completion_sequence(&other, &workspace())),
        "completion audit does not match the stored plan, integration proof and final source"
    );
    let mut renamed = completed_plan();
    renamed.plan_id = "plan:b".into();
    assert_eq!(
        message(completion_sequence(&renamed, &workspace())),
        "PlanPacket ID differs from its storage key"
    );
    let long = "é".repeat(2000);
    let told = aborted("plan:a", "repo:r", &long);
    assert!(told.starts_with(
        "schema v5→v6 migration aborted: legacy COMPLETE plan plan:a (repository repo:r) could not be validated: é"
    ));
    assert_eq!(told.matches('é').count(), 1024);
    assert!(told.ends_with("before retrying; no automatic repair was performed"));
}

// --- capabilities ----------------------------------------------------------

fn no_history() -> History {
    History {
        run: None,
        jobs: vec![],
        transitions: vec![],
        phases: vec![],
        generations: vec![],
        documents: Documents {
            inputs: vec![],
            proofs: vec![],
            sources: vec![],
            changes: vec![],
            requests: vec![],
            resolutions: vec![],
            decisions: vec![],
            deltas: vec![],
            unreadable: "artifact cannot be read".into(),
        },
        proof_hash: "proof".into(),
        source_hash: "source".into(),
        accepted_generation_id: None,
    }
}

fn stored(hash: &str) -> ArtifactRef {
    ArtifactRef { hash: hash.into(), bytes: 1 }
}

fn worker(id: &str, role: AgentRole) -> RuntimeJob {
    RuntimeJob {
        job_id: id.into(),
        session_id: "session".into(),
        role,
        plan_id: Some("plan:a".into()),
        task_id: Some("task:a".into()),
        workspace_id: workspace().into_string(),
        state: RuntimeJobState::Succeeded,
        input: stored(&format!("input of {id}")),
        output: None,
        reported_verification: None,
        context_request: None,
        context_manifest: None,
        created_at_ms: 1,
        failure: None,
        failure_class: None,
    }
}

/// A history in which one task was executed, and verified by another job.
fn verified_history() -> History {
    let given = task_proof("task:a", "executor:a").verification.unwrap();
    let mut verifier = worker("verifier of task:a", AgentRole::Verifier);
    verifier.output = Some(stored("proof"));
    verifier.reported_verification = Some(VerificationDecision::Pass);
    let mut run = run();
    run.accepted.push(AcceptedTask {
        task_id: "task:a".into(),
        executor: "executor:a".into(),
        verifier: "verifier of task:a".into(),
        diff: stored("diff"),
        evidence: vec![],
    });
    let mut h = no_history();
    h.run = Some(run);
    h.jobs = vec![worker("executor:a", AgentRole::Executor), verifier];
    h.transitions = vec![TaskTransition {
        sequence: 7,
        task: "task:a".into(),
        to: TaskState::Verified,
        proof: task_proof("task:a", "executor:a").verification,
    }];
    h.documents.inputs = vec![Document {
        hash: "input of verifier of task:a".into(),
        value: JobInput {
            repository_id: info().repository_id.into_string(),
            workspace_id: workspace().into_string(),
            plan_id: Some("plan:a".into()),
            task_id: Some("task:a".into()),
            job_id: "verifier of task:a".into(),
            role: AgentRole::Verifier,
            source: final_source(),
            target: Some(task_proof("task:a", "executor:a").verification.unwrap().target),
            footprint: None,
            deltas: vec![],
        },
    }];
    h.documents.proofs = vec![Document { hash: "proof".into(), value: given }];
    h.documents.changes = vec![Document {
        hash: "diff".into(),
        value: CapturedChanges {
            plan_id: "plan:a".into(),
            task_id: Some("task:a".into()),
            executor_job_id: Some("executor:a".into()),
            after: stored("after"),
        },
    }];
    h.documents.sources = vec![Document {
        hash: "after".into(),
        value: CapturedSource {
            repository_id: info().repository_id.into_string(),
            workspace_id: workspace().into_string(),
            head: Some("head".into()),
            source: Some(final_source()),
        },
    }];
    h
}

#[test]
fn every_capability_is_reported_once() {
    let store = active_store();
    assert!(store.control_plane_capabilities(&info(), "plan:x", &no_history()).is_err());
    let report = store.control_plane_capabilities(&info(), "plan:a", &no_history()).unwrap();
    assert_eq!(report.version, "1");
    assert_eq!(report.plan_id, "plan:a");
    assert_eq!(report.plan_state, PlanState::Active);
    assert_eq!(report.final_source, None);
    assert_eq!(report.capabilities.len(), 9);
    for (i, a) in report.capabilities.iter().enumerate() {
        assert!(report.capabilities[..i].iter().all(|b| a.capability != b.capability));
        // The plan has a dependency, so that its lock could have been shown.
        let expected = if i == 1 {
            CapabilityStatus::NotDemonstrated
        } else {
            CapabilityStatus::Unavailable
        };
        assert_eq!(a.status, expected);
        assert!(a.evidence.is_empty());
        assert_eq!(a.limitations.len(), 1);
    }
    assert_eq!(
        report.capabilities[0].limitations,
        ["this plan has no controller-owned runtime history"]
    );
}

#[test]
fn support_is_evidenced_by_independent_jobs() {
    let store = active_store();
    let first = |h: &History| {
        let mut r = store.control_plane_capabilities(&info(), "plan:a", h).unwrap();
        assert_eq!(r.capabilities[8].status, CapabilityStatus::NotDemonstrated);
        r.capabilities.remove(0)
    };
    let finding = first(&verified_history());
    assert_eq!(
        finding.capability,
        ControlPlaneCapability::ExecuteAndIndependentlyVerifyBoundedTask
    );
    assert_eq!(finding.status, CapabilityStatus::Supported);
    assert!(finding.limitations.is_empty());
    assert_eq!(finding.evidence.len(), 1);
    assert_eq!(finding.evidence[0].sequence, Some(7));
    assert_eq!(finding.evidence[0].task_id.as_deref(), Some("task:a"));
    assert_eq!(finding.evidence[0].executor_job_id.as_deref(), Some("executor:a"));
    assert_eq!(finding.evidence[0].verifier_job_id.as_deref(), Some("verifier of task:a"));

    let unsupported = |f: &dyn Fn(&mut History)| {
        let mut h = verified_history();
        f(&mut h);
        let finding = first(&h);
        assert_eq!(finding.status, CapabilityStatus::NotDemonstrated);
        assert_eq!(
            finding.limitations,
            ["no task has a complete canonical executor/verifier proof"]
        );
    };
    unsupported(&|h| h.jobs[0].state = RuntimeJobState::Failed);
    unsupported(&|h| h.jobs[1].context_request = Some(stored("request")));
    unsupported(&|h| h.documents.proofs.clear());
    unsupported(&|h| h.documents.sources[0].value.source = None);
    unsupported(&|h| h.documents.changes[0].value.executor_job_id = Some("other".into()));
    unsupported(&|h| h.documents.inputs[0].value.target = None);
    unsupported(&|h| h.run.as_mut().unwrap().accepted.clear());
}

// --- adoption, batches and integration -------------------------------------

#[test]
fn plans_are_adopted_on_their_own_baseline() {
    let p = plan("plan:a");
    let baseline = ArtifactRef { hash: "b".into(), bytes: 3 };
    let fresh = begin(&p, "session", "w", &baseline, None);
    assert_eq!(fresh.engineering_session.as_deref(), Some("session"));
    assert_eq!(fresh.verified, Some(ArtifactRef { hash: "b".into(), bytes: 3 }));
    assert_eq!(fresh.policy_hash, "policy");
    assert_eq!(fresh.correction_round, 0);
    assert_eq!(begin(&p, "session", "w", &baseline, Some(1)).correction_round, 2);
    let current = observation();
    assert!(check_adoption(&p, &current, true, &None, &vec![]).is_ok());
    let mut dirty = observation();
    dirty.dirty = true;
    assert_eq!(
        message(check_adoption(&p, &dirty, true, &None, &vec![])),
        "SOURCE_DRIFT: adopting the plan requires the plan's clean committed baseline; reprepare/replan dirty work"
    );
    assert_eq!(
        message(check_adoption(&p, &current, false, &None, &vec![])),
        "SOURCE_DRIFT: graph/source assumptions changed; replan"
    );
    let why = Some("accepted ontology is stale".to_string());
    assert!(message(check_adoption(&p, &current, true, &why, &vec![]))
        .ends_with("accepted ontology is stale"));
}

#[test]
fn members_of_a_batch_are_proven_against_each_other() {
    let p = independent();
    let mut store = active_store();
    store.plans[0].view.plan = independent();
    let tasks = store
        .execution_tasks(&workspace(), "plan:a", &guards(2), &vec![10, 10])
        .unwrap();
    let f = no_impact();
    let i = info();
    let ground = Ground { plan: &p, info: &i, tasks: &tasks, facts: &f };
    assert!(check_member(&ground, &vec![0, 1], 0).is_ok());
    assert!(check_member(&ground, &vec![0, 1], 1).is_ok());
    assert!(check_member(&ground, &vec![0], 0).is_err());
    let decisions = prove_batch(&ground, &vec![0, 1]).unwrap();
    assert_eq!(decisions.len(), 1);
    assert_eq!((decisions[0].left.as_str(), decisions[0].right.as_str()), ("task:a", "task:b"));
    assert_eq!(decisions[0].decision, Compatibility::Compatible);
    assert!(prove_batch(&ground, &vec![1]).unwrap().is_empty());
    // Tasks of which one waits for the other are not claimed together.
    let dependent = plan("plan:a");
    let ground = Ground { plan: &dependent, info: &i, tasks: &tasks, facts: &f };
    assert_eq!(
        message(prove_batch(&ground, &vec![0, 1])),
        "STALE_CONCURRENCY_AUTHORITY: pairwise compatibility is no longer proven"
    );
}

#[test]
fn integration_covers_every_task() {
    let p = plan("plan:a").packet;
    assert_eq!(integration_envelope(&p), [dir("src"), dir("doc")]);
    assert_eq!(integration_invariants(&p), ["law"]);
    let mut done = run();
    assert!(check_integrable(&done, &p).is_err());
    for (t, e) in [("task:a", "executor:a"), ("task:b", "executor:b")] {
        done.accepted.push(AcceptedTask {
            task_id: t.into(),
            executor: e.into(),
            verifier: "v".into(),
            diff: stored("diff"),
            evidence: vec![],
        });
    }
    assert!(check_integrable(&done, &p).is_ok());
    assert_eq!(
        integration_target(&done),
        VerificationTarget::Integration {
            plan_id: "plan:a".into(),
            executor_job_ids: strings(&["executor:a", "executor:b"]),
        }
    );
}

// --- what is told of plans -------------------------------------------------

#[test]
fn tasks_are_selected_and_told() {
    let store = active_store();
    let mut tasks = store
        .execution_tasks(&workspace(), "plan:a", &guards(2), &vec![10, 10])
        .unwrap();
    tasks[0].structurally_ready = true;
    tasks[1].structurally_ready = false;
    tasks[1].reasons = strings(&["waits", "still"]);
    assert_eq!(select_tasks(PlanCommand::Tasks, &tasks), [0, 1]);
    assert_eq!(select_tasks(PlanCommand::Ready, &tasks), [0]);
    assert_eq!(select_tasks(PlanCommand::Blocked, &tasks), [1]);
    tasks[1].state = TaskState::Verified;
    assert!(select_tasks(PlanCommand::Blocked, &tasks).is_empty());
    let told = tasks_report(&tasks, &vec![1], &strings(&["planned", "verified"]));
    let field = |name: &str, value: &str| Line::Field { name: name.into(), value: value.into() };
    assert_eq!(
        told.lines,
        [
            Line::Section("Task task:b".into()),
            field("Status", "verified"),
            field("Ready", "no"),
            field("Objective", "do task:b"),
            field("Depends", "task:a"),
            field("Waiting", "waits\nstill"),
        ]
    );
    assert_eq!(no_tasks("ready"), "No ready tasks");
    let view = store.execution_plan(&workspace(), "plan:a").unwrap();
    let names = PlanNames {
        state: "active".into(),
        integration: None,
        final_revision: Some("abc".into()),
    };
    let told = plan_report("Plan activated", view, &names);
    assert_eq!(
        told.lines[..8],
        [
            Line::Title("Plan activated".into()),
            field("Plan", "plan:a"),
            field("Status", "active"),
            field("Objective", "improve"),
            field("Request", request_id().as_str()),
            field("Final source", "abc"),
            Line::Section("Tasks (2)".into()),
            field("task:a", "do task:a"),
        ]
    );
}
