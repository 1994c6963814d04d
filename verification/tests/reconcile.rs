use agentctl::error::Error;
use agentctl::planning::scope::ScopePath;
use agentctl::protocol::{TaskPacket, VerificationRequirements};
use agentctl::repository::{RepositoryId, WorkspaceId};
use agentctl::runtime::concurrency::{Compatibility, CompatibilityDecision, CompatibilityReason};
use agentctl::runtime::experiment_events::content_hash;
use agentctl::runtime::reconcile::{
    check_published, check_result, classify, publish_path, reconciliation_intent, Publication,
    ReconciliationPath,
};
use agentctl::source::{ArtifactRef, FileChange, FileEntry, FileState, SourceSnapshot};
use std::collections::BTreeMap;

/// A checkout in memory: content and mode by path, as it is and as committed.
#[derive(Clone)]
struct Checkout {
    committed: BTreeMap<String, (Vec<u8>, u32)>,
    files: BTreeMap<String, (Vec<u8>, u32)>,
    blobs: BTreeMap<String, Vec<u8>>,
}

fn message(e: Error) -> String {
    match e {
        Error::Invalid(m) => m,
    }
}

fn state(bytes: &[u8], mode: u32) -> FileState {
    FileState {
        content: ArtifactRef {
            hash: content_hash(&bytes.to_vec()),
            bytes: bytes.len() as u64,
        },
        mode,
    }
}

fn snapshot(files: Vec<FileEntry>, dirty: bool) -> SourceSnapshot {
    SourceSnapshot {
        repository_id: format!("repo-{}", "1".repeat(64)),
        workspace_id: format!("workspace-{}", "2".repeat(64)),
        head: Some("deadbeef".to_string()),
        dirty,
        index_hash: "index".to_string(),
        files,
        ignored: vec![],
        exclude_hash: None,
    }
}

impl Checkout {
    fn new() -> Self {
        Checkout { committed: BTreeMap::new(), files: BTreeMap::new(), blobs: BTreeMap::new() }
    }
    fn put(&mut self, bytes: &[u8], mode: u32) -> FileState {
        let state = state(bytes, mode);
        self.blobs.insert(state.content.hash.clone(), bytes.to_vec());
        state
    }
    fn write(&mut self, path: &str, bytes: &[u8]) {
        let mode = self.files.get(path).map_or(0o644, |f| f.1);
        self.files.insert(path.to_string(), (bytes.to_vec(), mode));
    }
    fn read(&self, path: &str) -> Vec<u8> {
        self.files[path].0.clone()
    }
    fn commit(&mut self) {
        self.committed = self.files.clone();
    }
    fn capture(&self) -> SourceSnapshot {
        let files = self
            .files
            .iter()
            .map(|(path, (bytes, mode))| FileEntry {
                path: path.clone(),
                state: state(bytes, *mode),
            })
            .collect();
        snapshot(files, self.files != self.committed)
    }
}

struct Intent {
    expected: SourceSnapshot,
    intended: SourceSnapshot,
    paths: Vec<ReconciliationPath>,
}

/// Publishes an intent, and calls `after_write` after every write.
fn publish_with(
    checkout: &mut Checkout,
    intent: &Intent,
    mut after_write: impl FnMut(usize, &mut Checkout) -> Result<(), String>,
) -> Result<SourceSnapshot, String> {
    classify(&intent.expected, &checkout.capture(), &intent.paths).map_err(message)?;
    let mut writes = 0;
    for path in &intent.paths {
        let seen = checkout.capture();
        match publish_path(path, &seen.files).map_err(message)? {
            Publication::Skip => continue,
            Publication::Write { create } => {
                let after = path.after.as_ref().unwrap();
                assert_eq!(create, !checkout.files.contains_key(&path.path));
                let bytes = checkout.blobs[&after.content.hash].clone();
                checkout.files.insert(path.path.clone(), (bytes, after.mode));
            }
            Publication::Remove => {
                checkout.files.remove(&path.path);
            }
        }
        check_published(path, &checkout.capture().files).map_err(message)?;
        writes += 1;
        after_write(writes, checkout)?;
    }
    let result = checkout.capture();
    check_result(&result, &intent.intended).map_err(message)?;
    Ok(result)
}

fn publish(checkout: &mut Checkout, intent: &Intent) -> Result<SourceSnapshot, String> {
    publish_with(checkout, intent, |_, _| Ok(()))
}

type Paths = Vec<(String, Vec<u8>, Vec<u8>)>;

fn publication_fixture() -> (Checkout, Intent, Paths) {
    let paths: Paths = vec![
        ("a.rs".into(), b"a-before".to_vec(), b"a-after".to_vec()),
        ("b.rs".into(), b"b-before".to_vec(), b"b-after".to_vec()),
        ("c.rs".into(), b"c-before".to_vec(), b"c-after".to_vec()),
    ];
    let mut checkout = Checkout::new();
    for (path, before, _) in &paths {
        checkout.write(path, before);
    }
    checkout.commit();
    let changes = paths
        .iter()
        .map(|(path, before, after)| {
            let after = checkout.put(after, 0o644);
            ReconciliationPath {
                path: path.clone(),
                before: Some(state(before, 0o644)),
                after: Some(after),
            }
        })
        .collect();
    let intent = intent_for_paths(&checkout, changes);
    (checkout, intent, paths)
}

fn intent_for_paths(checkout: &Checkout, paths: Vec<ReconciliationPath>) -> Intent {
    let expected = checkout.capture();
    let mut files: BTreeMap<String, FileState> = expected
        .files
        .iter()
        .map(|f| (f.path.clone(), f.state.clone()))
        .collect();
    for path in &paths {
        match &path.after {
            Some(after) => {
                files.insert(path.path.clone(), after.clone());
            }
            None => {
                files.remove(&path.path);
            }
        }
    }
    let files = files
        .into_iter()
        .map(|(path, state)| FileEntry { path, state })
        .collect();
    let intended = snapshot(files, true);
    Intent { expected, intended, paths }
}

#[test]
fn stale_read_scope_blocks_reconciliation_before_any_write() {
    let entry = |path: &str, bytes: &[u8]| FileEntry {
        path: path.to_string(),
        state: state(bytes, 0o644),
    };
    let before = snapshot(
        vec![entry("read.rs", b"old read"), entry("write.rs", b"before")],
        false,
    );
    let current = snapshot(
        vec![
            entry("read.rs", b"sibling changed it"),
            entry("write.rs", b"before"),
        ],
        false,
    );
    let changes = vec![FileChange {
        path: "write.rs".into(),
        before: Some(state(b"before", 0o644)),
        after: Some(state(b"branch result", 0o644)),
        before_ignored: None,
        after_ignored: None,
    }];
    let task = TaskPacket {
        task_id: "task:test".into(),
        objective: "test stale reconcile".into(),
        read_scope: vec![ScopePath::File { path: "read.rs".into() }],
        write_scope: vec![ScopePath::File { path: "write.rs".into() }],
        graph_entities: vec![],
        invariant_refs: vec![],
        dependencies: vec![],
        verification: VerificationRequirements {
            requirement_refs: vec!["unit".into()],
            evidence_required: true,
        },
    };
    let compatibility = || {
        vec![CompatibilityDecision {
            left: "task:test".into(),
            right: "task:sibling".into(),
            decision: Compatibility::Compatible,
            reasons: vec![CompatibilityReason::DisjointDeclaredScopes],
        }]
    };
    let error =
        reconciliation_intent(&task, &compatibility(), &before, &current, &changes).unwrap_err();
    assert!(message(error).contains("RECONCILIATION_CONFLICT"));
    // Nothing was decided that could be written, and without the sibling's
    // change the same result is publishable.
    let intended =
        reconciliation_intent(&task, &compatibility(), &before, &before, &changes).unwrap();
    assert_eq!(intended.paths.len(), 1);
    assert_eq!(intended.paths[0].path, "write.rs");
    assert!(intended.source.dirty);
}

#[test]
fn every_publication_prefix_is_identified_and_completed() {
    let (mut checkout, intent, paths) = publication_fixture();
    for prefix in 0..=paths.len() {
        for (index, (path, before, after)) in paths.iter().enumerate() {
            checkout.write(path, if index < prefix { after } else { before });
        }
        let result = publish(&mut checkout, &intent).unwrap();
        assert!(
            result.same(&intent.intended),
            "prefix {prefix}/{}",
            paths.len()
        );
    }
    // Everything is published: doing it again changes nothing.
    publish(&mut checkout, &intent).unwrap();
}

#[test]
fn injected_io_failure_leaves_a_known_prefix_that_resumes() {
    let (mut checkout, intent, paths) = publication_fixture();
    let error = publish_with(&mut checkout, &intent, |writes, _| {
        if writes != 2 {
            Ok(())
        } else {
            Err("injected publication I/O failure".to_string())
        }
    })
    .unwrap_err();
    assert!(error.contains("injected publication I/O failure"));
    assert_eq!(checkout.read(&paths[0].0), paths[0].2);
    assert_eq!(checkout.read(&paths[1].0), paths[1].2);
    assert_eq!(checkout.read(&paths[2].0), paths[2].1);
    publish(&mut checkout, &intent).unwrap();
}

#[test]
fn unknown_third_party_content_fails_closed_before_any_write() {
    let (mut checkout, intent, paths) = publication_fixture();
    checkout.write(&paths[1].0, b"third-party");
    let error = publish(&mut checkout, &intent).unwrap_err();
    assert!(error.contains("neither expected-before nor intended-after"));
    assert_eq!(checkout.read(&paths[0].0), paths[0].1);
    assert_eq!(checkout.read(&paths[1].0), b"third-party");
}

#[test]
fn path_changed_after_batch_classification_is_not_overwritten() {
    let (mut checkout, intent, paths) = publication_fixture();
    let attacked = paths[1].0.clone();
    let error = publish_with(&mut checkout, &intent, |writes, checkout| {
        if writes == 1 {
            checkout.write(&attacked, b"third-party-after-classification");
        }
        Ok(())
    })
    .unwrap_err();
    assert!(error.contains("changed after classification"));
    assert_eq!(checkout.read(&paths[0].0), paths[0].2);
    assert_eq!(
        checkout.read(&paths[1].0),
        b"third-party-after-classification"
    );
}

#[test]
fn file_appearing_after_classification_is_not_overwritten_by_add() {
    let (mut checkout, _, paths) = publication_fixture();
    let added = "new.rs";
    let after = checkout.put(b"intended-add", 0o644);
    let first_before = state(&paths[0].1, 0o644);
    let first_after = checkout.put(&paths[0].2, 0o644);
    let intent = intent_for_paths(
        &checkout,
        vec![
            ReconciliationPath {
                path: paths[0].0.clone(),
                before: Some(first_before),
                after: Some(first_after),
            },
            ReconciliationPath {
                path: added.into(),
                before: None,
                after: Some(after),
            },
        ],
    );
    let error = publish_with(&mut checkout, &intent, |writes, checkout| {
        if writes == 1 {
            checkout.write(added, b"third-party-add");
        }
        Ok(())
    })
    .unwrap_err();
    assert!(error.contains("changed after classification"));
    assert_eq!(checkout.read(added), b"third-party-add");
}

#[test]
fn file_changed_after_classification_is_not_deleted() {
    let (mut checkout, _, paths) = publication_fixture();
    let first_before = state(&paths[0].1, 0o644);
    let first_after = checkout.put(&paths[0].2, 0o644);
    let deleted_before = state(&paths[1].1, 0o644);
    let intent = intent_for_paths(
        &checkout,
        vec![
            ReconciliationPath {
                path: paths[0].0.clone(),
                before: Some(first_before),
                after: Some(first_after),
            },
            ReconciliationPath {
                path: paths[1].0.clone(),
                before: Some(deleted_before),
                after: None,
            },
        ],
    );
    let target = paths[1].0.clone();
    let error = publish_with(&mut checkout, &intent, |writes, checkout| {
        if writes == 1 {
            checkout.write(&target, b"third-party-delete");
        }
        Ok(())
    })
    .unwrap_err();
    assert!(error.contains("changed after classification"));
    assert_eq!(checkout.read(&paths[1].0), b"third-party-delete");
}

#[test]
fn empty_file_transition_is_published_and_verified() {
    let (mut checkout, _, paths) = publication_fixture();
    let before = state(&paths[0].1, 0o644);
    let after = checkout.put(b"", 0o644);
    let intent = intent_for_paths(
        &checkout,
        vec![ReconciliationPath {
            path: paths[0].0.clone(),
            before: Some(before),
            after: Some(after),
        }],
    );
    publish(&mut checkout, &intent).unwrap();
    assert!(checkout.read(&paths[0].0).is_empty());
}

#[test]
fn mode_changed_after_classification_refuses_publication() {
    let (mut checkout, intent, paths) = publication_fixture();
    let attacked = paths[1].0.clone();
    let error = publish_with(&mut checkout, &intent, |writes, checkout| {
        if writes == 1 {
            checkout.files.get_mut(&attacked).unwrap().1 = 0o755;
        }
        Ok(())
    })
    .unwrap_err();
    assert!(error.contains("changed after classification"));
    assert_eq!(checkout.files[&paths[1].0].1 & 0o777, 0o755);
}

#[test]
fn a_deletion_is_published_once() {
    let (mut checkout, _, paths) = publication_fixture();
    let intent = intent_for_paths(
        &checkout,
        vec![ReconciliationPath {
            path: paths[2].0.clone(),
            before: Some(state(&paths[2].1, 0o644)),
            after: None,
        }],
    );
    publish(&mut checkout, &intent).unwrap();
    assert!(!checkout.files.contains_key(&paths[2].0));
    publish(&mut checkout, &intent).unwrap();
}

#[test]
fn a_file_that_nobody_publishes_must_not_change() {
    let (mut checkout, intent, _) = publication_fixture();
    checkout.write("other.rs", b"appeared");
    let error = publish(&mut checkout, &intent).unwrap_err();
    assert_eq!(
        error,
        "RECONCILIATION_UNRESOLVED: non-publication source changed while intent was pending"
    );
}

#[test]
fn a_moved_head_stops_publication() {
    let (checkout, intent, _) = publication_fixture();
    let mut actual = checkout.capture();
    actual.head = Some("moved".into());
    let error = classify(&intent.expected, &actual, &intent.paths).unwrap_err();
    assert_eq!(
        message(error),
        "RECONCILIATION_UNRESOLVED: canonical Git/ignored-source identity differs from durable intent"
    );
}

#[test]
fn identities_are_typed() {
    assert!(RepositoryId::try_from(format!("repo-{}", "1".repeat(64))).is_ok());
    assert!(WorkspaceId::try_from(format!("workspace-{}", "2".repeat(64))).is_ok());
    assert!(RepositoryId::try_from("repo-short".to_string()).is_err());
}
