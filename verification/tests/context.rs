use agentctl::error::Error;
use agentctl::graph::{Edge, Entity, EntityKind, GraphGeneration, Provenance, SourceRange};
use agentctl::manifest::{Authority, ContextInventory};
use agentctl::planning::model::{
    PlanningRequestId, PlanningSource, ProjectPolicy, SourceGuarantee, TaskInspection,
    VerificationContract, VerificationProfile, VerifierInput,
};
use agentctl::planning::scope::ScopePath;
use agentctl::protocol::{AgentRole, TaskPacket, TaskState, VerificationRequirements};
use agentctl::repository::{RepositoryId, RepositorySourceState, WorkspaceId};
use agentctl::runtime::config::ContextConfig;
use agentctl::runtime::context::{
    CapturedFile, ContextLedger, ContextRequestItem, DeltaItem, Envelope, ItemOutcome, MemoryLink,
    MemoryRecord, RelationDirection, Snapshot, Verdict,
};
use agentctl::runtime::inventory::{inventory, BaseSizes};
use agentctl::runtime::issue::base_executor;
use agentctl::runtime::relay::budget;
use agentctl::runtime::resolve::{answer_all, neighbors, settle, Answer, Association, Ontology, Subject};

const LIB: &str = "fn one() {}\nfn two() {}\n";

fn message<T: std::fmt::Debug>(r: Result<T, Error>) -> String {
    match r.unwrap_err() {
        Error::Invalid(m) => m,
    }
}

fn strings(list: &[&str]) -> Vec<String> {
    list.iter().map(|s| s.to_string()).collect()
}

fn dir(path: &str) -> ScopePath {
    ScopePath::Directory { path: path.into() }
}

fn provenance(path: &str) -> Provenance {
    Provenance {
        repository_id: "r".into(),
        workspace_id: "w".into(),
        path: path.into(),
        content_hash: format!("hash {path}"),
        language_backend: "rust".into(),
        backend: "rust".into(),
    }
}

fn entity(id: &str, name: &str, path: &str, bytes: (usize, usize), line: usize) -> Entity {
    Entity {
        id: id.into(),
        kind: EntityKind::Item,
        name: name.into(),
        qualified_name: format!("crate::{name}"),
        signature: format!("fn {name}()"),
        visibility: None,
        range: SourceRange {
            start_byte: bytes.0,
            end_byte: bytes.1,
            start_line: line,
            end_line: line,
        },
        provenance: provenance(path),
    }
}

fn edge(id: &str, from: &str, to: &str) -> Edge {
    Edge {
        id: id.into(),
        source: from.into(),
        target: Some(to.into()),
        kind: "CALLS".into(),
        resolution: None,
        provenance: provenance("src/lib.rs"),
    }
}

fn generation() -> GraphGeneration {
    GraphGeneration { sequence: 1, fingerprint: "g".into() }
}

fn ontology() -> Ontology {
    Ontology {
        generation: Some(generation()),
        entities: vec![
            entity("entity:one", "one", "src/lib.rs", (0, 11), 1),
            entity("entity:two", "two", "src/lib.rs", (12, 23), 2),
            entity("entity:far", "far", "far/lib.rs", (0, 4), 1),
        ],
        edges: vec![
            edge("edge:1", "entity:one", "entity:two"),
            edge("edge:2", "entity:two", "entity:far"),
        ],
        associations: vec![Association {
            subject: "entity:one".into(),
            test: entity("entity:two", "two", "src/lib.rs", (12, 23), 2),
            basis: "CALLS".into(),
        }],
    }
}

fn file(path: &str, content: &[u8]) -> CapturedFile {
    CapturedFile {
        path: path.into(),
        hash: format!("hash {path}"),
        bytes: content.len() as u64,
        content: content.to_vec(),
    }
}

fn snapshot() -> Snapshot {
    Snapshot {
        files: vec![
            file("far/lib.rs", b"far!"),
            file("src/blob", &[0, 159, 146, 150]),
            file("src/lib.rs", LIB.as_bytes()),
        ],
        ignored: strings(&["src/ignored"]),
        hash: "source".into(),
    }
}

fn memory(id: &str, agent_note: bool, active: bool) -> MemoryRecord {
    MemoryRecord {
        id: id.into(),
        trust: "CANONICAL".into(),
        kind: "FACT".into(),
        validity: "CURRENT".into(),
        content: "remember".into(),
        agent_note,
        active,
        stale: false,
        links: vec![MemoryLink::File { path: "src/lib.rs".into() }],
    }
}

fn memories() -> Vec<MemoryRecord> {
    vec![
        memory("memory:fact", false, true),
        memory("memory:note", true, true),
        memory("memory:old", false, false),
    ]
}

fn envelope() -> Envelope {
    Envelope { scopes: vec![dir("src")], memory: vec![] }
}

fn answer(item: ContextRequestItem) -> Answer {
    let mut all = answer_all(
        &ontology(),
        &snapshot(),
        &memories(),
        &envelope(),
        &Some(generation()),
        &vec![item],
    )
    .unwrap();
    assert_eq!(all.len(), 1);
    all.remove(0)
}

fn outcome(item: ContextRequestItem) -> (ItemOutcome, String) {
    let a = answer(item);
    (a.resolution.outcome, a.resolution.detail.unwrap_or_default())
}

fn range(path: &str, start_line: u32, end_line: u32) -> ContextRequestItem {
    ContextRequestItem::FileRange { path: path.into(), start_line, end_line }
}

#[test]
fn definitions_are_issued_inside_the_envelope() {
    let a = answer(ContextRequestItem::SymbolDefinition { entity_id: "entity:two".into() });
    assert_eq!(a.resolution.outcome, ItemOutcome::Granted);
    match a.item.unwrap() {
        DeltaItem::Symbol { entity, definition, .. } => {
            assert_eq!(entity.id, "entity:two");
            let text = definition.unwrap();
            assert_eq!(text.text, "fn two() {}");
            assert_eq!((text.start_line, text.end_line), (2, 2));
        }
        other => panic!("{other:?}"),
    }
    let far = answer(ContextRequestItem::SymbolDefinition { entity_id: "entity:far".into() });
    assert_eq!(far.resolution.outcome, ItemOutcome::OutsideEnvelope);
    assert_eq!(far.resolution.paths, ["far/lib.rs"]);
    assert_eq!(
        outcome(ContextRequestItem::SymbolDefinition { entity_id: "entity:x".into() }),
        (ItemOutcome::NotFound, "entity is absent from the current ontology".into())
    );
    assert_eq!(
        outcome(ContextRequestItem::SymbolByName { name: "crate::one".into() }).0,
        ItemOutcome::Granted
    );
    assert_eq!(
        outcome(ContextRequestItem::SymbolByName { name: "nothing".into() }).0,
        ItemOutcome::NotFound
    );
}

#[test]
fn ranges_are_read_from_captured_files_alone() {
    match answer(range("src/lib.rs", 2, 9)).item.unwrap() {
        DeltaItem::FileRange { text, content_hash, end_line, .. } => {
            assert_eq!(text, "fn two() {}\n");
            assert_eq!(end_line, 2);
            assert_eq!(content_hash, "hash src/lib.rs");
        }
        other => panic!("{other:?}"),
    }
    assert_eq!(
        outcome(range("src/lib.rs", 3, 9)),
        (ItemOutcome::OutOfRange, "file has 2 lines".into())
    );
    assert_eq!(outcome(range("src/blob", 1, 1)).0, ItemOutcome::Binary);
    assert_eq!(outcome(range("src/none", 1, 1)).0, ItemOutcome::NotFound);
    assert_eq!(outcome(range("src/ignored", 1, 1)).0, ItemOutcome::NotSource);
    assert_eq!(outcome(range("far/lib.rs", 1, 1)).0, ItemOutcome::OutsideEnvelope);
}

#[test]
fn memory_is_issued_only_when_linked_and_live() {
    let ask = |id: &str| outcome(ContextRequestItem::Memory { memory_id: id.into() });
    assert_eq!(ask("memory:fact").0, ItemOutcome::Granted);
    assert_eq!(
        ask("memory:note"),
        (
            ItemOutcome::OutsideEnvelope,
            "agent notes require explicit planner selection".into()
        )
    );
    assert_eq!(ask("memory:old").0, ItemOutcome::Stale);
    assert_eq!(ask("memory:none").0, ItemOutcome::NotFound);
}

#[test]
fn neighborhoods_are_bounded_and_closed() {
    let (found, cut) = neighbors(&ontology(), "entity:one", false, 8);
    assert_eq!(found.len(), 1);
    assert_eq!(found[0].entity.id, "entity:two");
    assert!(!cut);
    assert!(neighbors(&ontology(), "entity:one", true, 8).0.is_empty());
    let a = answer(ContextRequestItem::Neighborhood {
        entity_id: "entity:one".into(),
        depth: 1,
    });
    match a.item.unwrap() {
        DeltaItem::Neighborhood { entities, relations, .. } => {
            let ids: Vec<&str> = entities.iter().map(|e| e.id.as_str()).collect();
            for r in &relations {
                assert!(ids.contains(&r.source.as_str()) && ids.contains(&r.target.as_str()));
            }
            assert!(ids.contains(&"entity:two"));
            assert!(!ids.contains(&"entity:far"));
        }
        other => panic!("{other:?}"),
    }
    let a = answer(ContextRequestItem::SymbolRelations {
        entity_id: "entity:two".into(),
        relation: RelationDirection::Callers,
    });
    match a.item.unwrap() {
        DeltaItem::Relations { entities, .. } => assert_eq!(entities[0].id, "entity:one"),
        other => panic!("{other:?}"),
    }
    let a = answer(ContextRequestItem::RelatedTests { entity_id: "entity:one".into() });
    match a.item.unwrap() {
        DeltaItem::Tests { tests, .. } => assert_eq!(tests[0].basis, "CALLS"),
        other => panic!("{other:?}"),
    }
}

#[test]
fn nothing_outside_is_granted_automatically() {
    let items = vec![
        ContextRequestItem::SymbolDefinition { entity_id: "entity:one".into() },
        ContextRequestItem::SymbolDefinition { entity_id: "entity:far".into() },
    ];
    let limits = ContextConfig::default();
    let ledger = ContextLedger::new(AgentRole::Executor, Some("task:a".into()));
    let b = budget(4096, &limits, &ledger, 2, 1);
    let settled = |items: &Vec<ContextRequestItem>, sizes: Vec<usize>| {
        let answers = answer_all(
            &ontology(),
            &snapshot(),
            &memories(),
            &envelope(),
            &Some(generation()),
            items,
        )
        .unwrap();
        let bytes = sizes.iter().sum();
        settle(
            Subject { subject: "executor:task:a".into(), request_hash: "request".into() },
            &ontology(),
            &snapshot(),
            &envelope(),
            answers,
            &sizes,
            bytes,
            &b,
        )
    };
    let (resolution, granted) = settled(&items, vec![10, 0]);
    assert_eq!(resolution.verdict, Verdict::Escalate);
    assert!(granted.is_empty());
    let inside = vec![ContextRequestItem::SymbolDefinition { entity_id: "entity:one".into() }];
    let (resolution, granted) = settled(&inside, vec![10]);
    assert_eq!(resolution.verdict, Verdict::Granted);
    assert_eq!(resolution.bytes, 10);
    assert_eq!(granted.len(), 1);
    let stale = answer_all(
        &ontology(),
        &snapshot(),
        &memories(),
        &envelope(),
        &None,
        &inside,
    );
    assert!(message(stale).starts_with("SOURCE_DRIFT: ontology generation changed"));
}

fn inspection(read: Vec<ScopePath>, write: Vec<ScopePath>, entities: &[&str]) -> TaskInspection {
    let workspace_id = WorkspaceId::for_git_directory("/w/.git");
    TaskInspection {
        planning_request_id: PlanningRequestId::new("request:a".into()).unwrap(),
        source: PlanningSource {
            observation: RepositorySourceState {
                repository_id: RepositoryId::for_common_directory("/w/.git"),
                workspace_id,
                head_commit: None,
                dirty: false,
                worktree_fingerprint: None,
                observed_at_ms: 1,
            },
            policy_hash: "policy".into(),
            graph_version: "1".into(),
            support: vec![],
            guarantee: SourceGuarantee::SequentialObservationNotExactDiff,
        },
        constraints: vec![],
        invariants: vec![],
        packet: TaskPacket {
            task_id: "task:a".into(),
            objective: "o".into(),
            dependencies: vec![],
            read_scope: read,
            write_scope: write,
            graph_entities: strings(entities),
            invariant_refs: vec![],
            verification: VerificationRequirements {
                requirement_refs: strings(&["unit"]),
                evidence_required: true,
            },
        },
        contract: VerificationContract {
            task_id: "task:a".into(),
            task_packet_hash: "h".into(),
            independent_verifier: true,
            input: VerifierInput::PacketDiffAndEvidence,
            memory_refs: strings(&["memory:fact"]),
            exclusions: vec![],
            non_goals: vec![],
        },
        state: TaskState::Ready,
        structurally_ready: true,
        reasons: vec![],
        packet_bytes: 1,
        contract_bytes: 1,
    }
}

fn policy() -> ProjectPolicy {
    ProjectPolicy {
        protected: vec![],
        verification: vec![VerificationProfile {
            name: "unit".into(),
            description: "d".into(),
            command_refs: vec![],
        }],
        commands: vec![],
        invariants: vec![],
        max_agents: None,
        deny_network: false,
    }
}

#[test]
fn directories_inject_no_files() {
    let task = inspection(vec![dir("src")], vec![dir("src")], &["entity:one"]);
    let issued = base_executor(
        &ontology(),
        &snapshot(),
        &memories(),
        &policy(),
        &task,
        &envelope(),
    )
    .unwrap();
    assert!(issued.files.is_empty());
    assert_eq!(issued.symbols.len(), 1);
    assert_eq!(issued.symbols[0].definition.as_ref().unwrap().text, "fn one() {}");
    assert_eq!(issued.symbols[0].callees[0].id, "entity:two");
    assert_eq!(issued.memory[0].id, "memory:fact");
    assert_eq!(issued.checks[0].requirement, "unit");
    assert_eq!(issued.source_hash, "source");
    let named = inspection(
        vec![ScopePath::File { path: "src/lib.rs".into() }],
        vec![],
        &[],
    );
    let issued = base_executor(
        &ontology(),
        &snapshot(),
        &memories(),
        &policy(),
        &named,
        &envelope(),
    )
    .unwrap();
    assert_eq!(issued.files[0].text.as_deref(), Some(LIB));
    assert_eq!(issued.files[0].authority, Authority::PlannerReadFile);
    let mut i = ContextInventory {
        round: None,
        graph_generation: None,
        graph_version: None,
        truncated: false,
        issued: vec![],
        graph_entities: vec![],
        paths: vec![],
        memory: vec![],
        deltas: vec![],
    };
    let sizes = BaseSizes { symbols: vec![], files: vec![7], memory: vec![5], checks: vec![3] };
    inventory(&mut i, Some((&issued, &sizes)), &vec![], 0, "1");
    let bytes: Vec<usize> = i.issued.iter().map(|x| x.bytes).collect();
    assert_eq!(bytes, [7, 5, 3]);
    assert_eq!(i.issued[0].reference, "src/lib.rs");
    assert_eq!(i.memory, ["memory:fact"]);
    assert_eq!(i.round, Some(0));
}

#[test]
fn issued_symbols_lie_in_the_envelope() {
    let task = inspection(vec![dir("src")], vec![], &["entity:far"]);
    assert!(message(base_executor(
        &ontology(),
        &snapshot(),
        &memories(),
        &policy(),
        &task,
        &envelope(),
    ))
    .contains("planner-selected graph entity lies outside the task read scope"));
}
